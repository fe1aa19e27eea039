use message_repeater::prompt::{
    classify_source_line, confirm_accepts, get_file_or_stdin, prompt_float_text, prompt_i32,
    CollectError, InputEvent, MessageSourceKind,
};

fn line(s: &str) -> InputEvent {
    InputEvent::Line(s.to_string())
}

#[test]
fn source_prompt_accepts_only_f_or_i() {
    assert_eq!(classify_source_line("f"), Some(MessageSourceKind::FromFile));
    assert_eq!(classify_source_line("i"), Some(MessageSourceKind::FromInteractiveInput));
    assert_eq!(classify_source_line("  f "), Some(MessageSourceKind::FromFile));
    assert_eq!(classify_source_line(""), None);
    assert_eq!(classify_source_line("x"), None);
    assert_eq!(classify_source_line("fi"), None);
    assert_eq!(classify_source_line("F"), None);
    assert_eq!(classify_source_line("file"), None);
}

#[test]
fn source_prompt_reprompts_until_valid() {
    let events = vec![line("x"), line(""), line("files"), line(" f ")];
    let (choice, used) = get_file_or_stdin(&events, 0).unwrap();
    assert_eq!(choice, "f");
    assert_eq!(used, 4);
}

#[test]
fn source_prompt_read_failure_is_fatal() {
    let events = vec![line("zzz"), InputEvent::ReadFailure, line("f")];
    assert_eq!(get_file_or_stdin(&events, 0), Err(CollectError::FatalInput));
}

#[test]
fn source_prompt_needs_input() {
    let events = vec![line("a"), line("b")];
    assert_eq!(get_file_or_stdin(&events, 0), Err(CollectError::NoMoreInput));
}

#[test]
fn integer_prompt_rejects_then_accepts_exact_value() {
    let events = vec![line("12.5"), line("abc"), InputEvent::ReadFailure, line(" 42 ")];
    let (v, used) = prompt_i32(&events, 0).unwrap();
    assert_eq!(v, 42);
    assert_eq!(used, 4);
}

#[test]
fn integer_prompt_accepts_negative_and_zero() {
    let events = vec![line("-17")];
    assert_eq!(prompt_i32(&events, 0).unwrap(), (-17, 1));
    let events = vec![line("0")];
    assert_eq!(prompt_i32(&events, 0).unwrap(), (0, 1));
}

#[test]
fn integer_prompt_rejects_out_of_range() {
    let events = vec![line("2147483648"), line("5")];
    assert_eq!(prompt_i32(&events, 0).unwrap(), (5, 2));
}

#[test]
fn float_prompt_keeps_the_accepted_text() {
    let events = vec![line("one and a half"), line(" 2.5e1 ")];
    let (text, used) = prompt_float_text(&events, 0).unwrap();
    assert_eq!(text, "2.5e1");
    assert_eq!(used, 2);
    assert_eq!(text.parse::<f64>().unwrap(), 25.0);
}

#[test]
fn float_prompt_accepts_negative_values() {
    let events = vec![line("-0.25")];
    assert_eq!(prompt_float_text(&events, 0).unwrap(), ("-0.25".to_string(), 1));
}

#[test]
fn confirmation_accepts_only_exact_y() {
    assert!(confirm_accepts("y"));
    assert!(confirm_accepts(" y "));
    assert!(!confirm_accepts("Y"));
    assert!(!confirm_accepts("yes"));
    assert!(!confirm_accepts(""));
    assert!(!confirm_accepts("n"));
    assert!(!confirm_accepts("yy"));
}
