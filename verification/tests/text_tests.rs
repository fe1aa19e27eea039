use message_repeater::text::{trim, split_words, strip_whitespace};

#[test]
fn trims_surrounding_whitespace() {
    assert_eq!(trim("  hello  "), "hello");
    assert_eq!(trim("hello"), "hello");
    assert_eq!(trim(""), "");
    assert_eq!(trim(" \t\r\n "), "");
    assert_eq!(trim("a b"), "a b");
    assert_eq!(trim("\u{00A0}hello\u{3000}"), "hello");
    assert_eq!(trim("x "), "x");
    assert_eq!(trim(" x"), "x");
}

#[test]
fn trim_agrees_with_std() {
    let samples = [
        "", " ", "word", " word ", "\ttabbed\t", "two words", " \u{2028}mixed\u{205F} ",
        "inner  gap kept ",
    ];
    for s in samples {
        assert_eq!(trim(s), s.trim(), "input {:?}", s);
    }
}

#[test]
fn splits_on_whitespace_runs() {
    assert_eq!(split_words("ab c  d"), vec!["ab", "c", "d"]);
    assert_eq!(split_words("  lead and trail  "), vec!["lead", "and", "trail"]);
    assert_eq!(split_words(""), Vec::<String>::new());
    assert_eq!(split_words("   "), Vec::<String>::new());
    assert_eq!(split_words("one"), vec!["one"]);
    assert_eq!(split_words("a\tb\nc"), vec!["a", "b", "c"]);
}

#[test]
fn split_words_agrees_with_std() {
    let samples = ["ab c  d", " x ", "", "a\u{3000}b", "w1 w2\tw3\n"];
    for s in samples {
        let ours = split_words(s);
        let std_words: Vec<&str> = s.split_whitespace().collect();
        assert_eq!(ours, std_words, "input {:?}", s);
    }
}

#[test]
fn strips_every_whitespace_character() {
    assert_eq!(strip_whitespace("ab c"), "abc");
    assert_eq!(strip_whitespace("  a  b  "), "ab");
    assert_eq!(strip_whitespace("nospace"), "nospace");
    assert_eq!(strip_whitespace(" \t\n"), "");
    assert_eq!(strip_whitespace("a\u{00A0}b"), "ab");
}
