use cc_switch::tokens::{estimate_tokens, is_cjk_char};

#[test]
fn estimate_tokens_is_reasonable_and_stable() {
    // English alone: about three characters for a token
    let english = "invoke a skill that is packaged for a particular task";
    let e = estimate_tokens(english);
    assert!(e > 0 && e <= english.chars().count() as u64);

    // Chinese alone: about one token for a character
    let chinese = "这是一个用于测试的中文句子";
    assert_eq!(estimate_tokens(chinese), chinese.chars().count() as u64);

    // both: something in between
    let mixed = "invoke skill 用于特定任务 deploy steps";
    let m = estimate_tokens(mixed);
    assert!(m > 0);

    // nothing
    assert_eq!(estimate_tokens(""), 0);
}

#[test]
fn estimate_tokens_gives_exact_values() {
    assert_eq!(estimate_tokens("a"), 1);
    assert_eq!(estimate_tokens("abc"), 1);
    assert_eq!(estimate_tokens("abcd"), 2);
    assert_eq!(
        estimate_tokens("invoke a skill that is packaged for a particular task"),
        18
    );
    // 6 CJK characters and 26 others
    assert_eq!(estimate_tokens("invoke skill 用于特定任务 deploy steps"), 15);
    assert_eq!(estimate_tokens("中a"), 2);
}

#[test]
fn estimate_of_two_texts_is_close_to_that_of_both() {
    for (first, second) in [("a", "b"), ("abc", "中文"), ("", "abcd"), ("ab", "cd")] {
        let both = estimate_tokens(&format!("{first}{second}"));
        let apart = estimate_tokens(first) + estimate_tokens(second);
        assert!(both <= apart && apart <= both + 1);
        assert_eq!(both, estimate_tokens(&format!("{second}{first}")));
    }
}

#[test]
fn longer_texts_count_no_less_and_order_does_not_matter() {
    let text = "ab中c文 d";
    let mut last = 0;
    for (end, _) in text.char_indices() {
        let tokens = estimate_tokens(&text[..end]);
        assert!(last <= tokens);
        last = tokens;
    }
    let reversed: String = text.chars().rev().collect();
    assert_eq!(estimate_tokens(text), estimate_tokens(&reversed));
    assert_eq!(estimate_tokens(text), 4);
}

#[test]
fn cjk_ranges_have_their_bounds() {
    for (low, high) in [
        (0x3400, 0x4DBF),
        (0x4E00, 0x9FFF),
        (0x3040, 0x30FF),
        (0xAC00, 0xD7AF),
        (0xF900, 0xFAFF),
        (0xFF00, 0xFFEF),
    ] {
        for code in [low, high] {
            assert!(is_cjk_char(char::from_u32(code).unwrap()));
        }
        for code in [low - 1, high + 1] {
            assert!(!is_cjk_char(char::from_u32(code).unwrap()));
        }
    }
    assert!(!is_cjk_char('a'));
    assert!(!is_cjk_char('\u{3002}'));
}
