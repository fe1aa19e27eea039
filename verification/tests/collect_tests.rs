use message_repeater::collect::{
    get_file_message, get_stdin_message, get_user_message, get_user_specs, get_x_and_y_position,
    resolve_source_kind, FileEntry, ScreenPosition,
};
use message_repeater::prompt::{CollectError, InputEvent, MessageSourceKind};

fn line(s: &str) -> InputEvent {
    InputEvent::Line(s.to_string())
}

fn file(path: &str, contents: &str) -> FileEntry {
    FileEntry { path: path.to_string(), contents: Some(contents.to_string()) }
}

#[test]
fn source_kind_falls_back_to_interactive() {
    assert_eq!(resolve_source_kind("f"), MessageSourceKind::FromFile);
    assert_eq!(resolve_source_kind("i"), MessageSourceKind::FromInteractiveInput);
    assert_eq!(resolve_source_kind("anything"), MessageSourceKind::FromInteractiveInput);
    assert_eq!(resolve_source_kind(""), MessageSourceKind::FromInteractiveInput);
}

#[test]
fn position_takes_two_integer_prompts() {
    let events = vec![line("abc"), line("10"), line("-5")];
    let (p, used) = get_x_and_y_position(&events, 0).unwrap();
    assert_eq!(p, ScreenPosition { x: 10, y: -5 });
    assert_eq!(used, 3);
}

#[test]
fn missing_path_reprompts_before_success() {
    let events = vec![line("missing.txt"), line("present.txt")];
    let files = vec![file("present.txt", "the message")];
    let (m, used) = get_file_message(&events, 0, &files).unwrap();
    assert_eq!(m, "the message");
    assert_eq!(used, 2);
}

#[test]
fn existing_path_is_accepted_at_once() {
    let events = vec![line(" present.txt "), line("unused")];
    let files = vec![file("present.txt", "body")];
    assert_eq!(get_file_message(&events, 0, &files).unwrap(), ("body".to_string(), 1));
}

#[test]
fn unreadable_file_is_fatal() {
    let events = vec![line("locked.txt")];
    let files = vec![FileEntry { path: "locked.txt".to_string(), contents: None }];
    assert_eq!(get_file_message(&events, 0, &files), Err(CollectError::UnreadableFile));
}

#[test]
fn interactive_message_is_first_line_verbatim() {
    let events = vec![InputEvent::ReadFailure, line("  hi there  ")];
    assert_eq!(get_stdin_message(&events, 0).unwrap(), ("  hi there  ".to_string(), 2));
}

#[test]
fn rejected_candidate_is_discarded_and_resolution_restarts() {
    let events = vec![line("first try"), line("n"), line("second try"), line("y")];
    let (m, used) = get_user_message("i", &events, 0, &Vec::new()).unwrap();
    assert_eq!(m, "second try");
    assert_eq!(used, 4);
}

#[test]
fn confirmed_candidate_is_returned_trimmed() {
    let events = vec![line("  hello world  "), line(" y ")];
    let (m, used) = get_user_message("i", &events, 0, &Vec::new()).unwrap();
    assert_eq!(m, "hello world");
    assert_eq!(used, 2);
}

#[test]
fn file_resolution_restarts_from_the_path_prompt() {
    let events = vec![line("a.txt"), line("no"), line("b.txt"), line("y")];
    let files = vec![file("a.txt", "alpha"), file("b.txt", "beta")];
    let (m, used) = get_user_message("f", &events, 0, &files).unwrap();
    assert_eq!(m, "beta");
    assert_eq!(used, 4);
}

#[test]
fn collects_interactive_specification() {
    let events = vec![
        line(" i "),
        line("  hello world  "),
        line("y"),
        line("0.5"),
        line("3"),
        line("10"),
        line("20"),
        line("30"),
        line("40"),
    ];
    let (specs, used) = get_user_specs(&events, &Vec::new()).unwrap();
    assert_eq!(specs.file_or_stdin, "i");
    assert_eq!(specs.message, "hello world");
    assert_eq!(specs.time_period, "0.5");
    assert_eq!(specs.repeats, 3);
    assert_eq!(specs.browser_position, ScreenPosition { x: 10, y: 20 });
    assert_eq!(specs.whatsapp_position, ScreenPosition { x: 30, y: 40 });
    assert_eq!(used, 9);
}

#[test]
fn collects_file_specification_with_retries() {
    let events = vec![
        line("what"),
        line("f"),
        line("nope.txt"),
        line("msg.txt"),
        line("y"),
        line("zero point two"),
        line("0.2"),
        line("-1"),
        line("1"),
        line("2"),
        line("3"),
        line("4"),
    ];
    let files = vec![file("msg.txt", " file text \n")];
    let (specs, used) = get_user_specs(&events, &files).unwrap();
    assert_eq!(specs.file_or_stdin, "f");
    assert_eq!(specs.message, "file text");
    assert_eq!(specs.time_period, "0.2");
    assert_eq!(specs.repeats, -1);
    assert_eq!(specs.browser_position, ScreenPosition { x: 1, y: 2 });
    assert_eq!(specs.whatsapp_position, ScreenPosition { x: 3, y: 4 });
    assert_eq!(used, 12);
}

#[test]
fn collector_reports_exhausted_input() {
    let events = vec![line("i"), line("message")];
    assert!(matches!(get_user_specs(&events, &Vec::new()), Err(CollectError::NoMoreInput)));
}

#[test]
fn collector_reports_fatal_source_read() {
    let events = vec![InputEvent::ReadFailure];
    assert!(matches!(get_user_specs(&events, &Vec::new()), Err(CollectError::FatalInput)));
}
