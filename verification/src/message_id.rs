//! Identifiers for messages.

use vstd::prelude::*;

verus! {

/// Whether `c` is a digit of a hexadecimal number, with small letters.
pub open spec fn is_hex_digit(c: char) -> bool {
    '0' <= c <= '9' || 'a' <= c <= 'f'
}

/// Whether `id` is a random UUID (version 4), written as 32 hexadecimal digits and nothing
/// else.
pub open spec fn is_random_uuid(id: Seq<char>) -> bool {
    &&& id.len() == 32
    &&& forall|i: int| 0 <= i < id.len() ==> is_hex_digit(#[trigger] id[i])
    &&& id[12] == '4'
    &&& id[16] == '8' || id[16] == '9' || id[16] == 'a' || id[16] == 'b'
}

/// `uuid::Uuid::new_v4`, written by `simple`: 32 hexadecimal digits, with the version and
/// the variant of a random UUID in their places. The other digits are left open: they come
/// from the system's source of random numbers.
#[verifier::external_body]
pub(crate) fn random_uuid() -> (id: String)
    ensures
        is_random_uuid(id@),
{
    uuid::Uuid::new_v4().simple().to_string()
}

/// The identifier of a message: `msg_` and a UUID.
pub open spec fn message_id_of(uuid: Seq<char>) -> Seq<char> {
    "msg_"@ + uuid
}

/// The identifier of a message: `msg_` and a UUID.
pub fn message_id(uuid: &str) -> (id: String)
    ensures
        id@ == message_id_of(uuid@),
{
    let mut id = "msg_".to_owned();
    id.append(uuid);
    id
}

} // verus!
