use message_repeater::collect::ScreenPosition;
use message_repeater::coords::{in_exit_region, show_screen_coords};
use message_repeater::dispatch::{
    coords_run_or_exit, iterations_for, parse_run_mode, pause_between_repeats, run_plan,
    send_units_for_mode, RunMode,
};
use message_repeater::prompt::{CollectError, InputEvent};

fn line(s: &str) -> InputEvent {
    InputEvent::Line(s.to_string())
}

#[test]
fn menu_letters_select_their_modes() {
    assert_eq!(parse_run_mode("c"), Some(RunMode::ShowCoordinates));
    assert_eq!(parse_run_mode("m"), Some(RunMode::SendWhole));
    assert_eq!(parse_run_mode("w"), Some(RunMode::SendByWord));
    assert_eq!(parse_run_mode("l"), Some(RunMode::SendByCharacter));
    assert_eq!(parse_run_mode(" e "), Some(RunMode::Exit));
    assert_eq!(parse_run_mode(""), None);
    assert_eq!(parse_run_mode("q"), None);
    assert_eq!(parse_run_mode("cm"), None);
}

#[test]
fn menu_reprompts_until_a_valid_letter() {
    let events = vec![line(""), line("z"), InputEvent::ReadFailure, line("w")];
    assert_eq!(coords_run_or_exit(&events, 0).unwrap(), (RunMode::SendByWord, 4));
    let empty: Vec<InputEvent> = Vec::new();
    assert_eq!(coords_run_or_exit(&empty, 0), Err(CollectError::NoMoreInput));
}

#[test]
fn whole_message_is_one_unit() {
    assert_eq!(send_units_for_mode(&RunMode::SendWhole, "hello world"), vec!["hello world"]);
}

#[test]
fn words_are_units_with_separators_collapsed() {
    assert_eq!(send_units_for_mode(&RunMode::SendByWord, "ab c  d"), vec!["ab", "c", "d"]);
}

#[test]
fn characters_are_units_with_whitespace_stripped() {
    assert_eq!(send_units_for_mode(&RunMode::SendByCharacter, "ab c"), vec!["a", "b", "c"]);
    assert_eq!(
        send_units_for_mode(&RunMode::SendByCharacter, " a\tb "),
        vec!["a", "b"]
    );
}

#[test]
fn idle_modes_send_nothing() {
    assert_eq!(send_units_for_mode(&RunMode::ShowCoordinates, "text"), Vec::<String>::new());
    assert_eq!(send_units_for_mode(&RunMode::Exit, "text"), Vec::<String>::new());
}

#[test]
fn nonpositive_repeats_send_nothing_in_every_mode() {
    for mode in [
        RunMode::ShowCoordinates,
        RunMode::SendWhole,
        RunMode::SendByWord,
        RunMode::SendByCharacter,
        RunMode::Exit,
    ] {
        assert_eq!(iterations_for(0), 0);
        assert_eq!(iterations_for(-3), 0);
        assert_eq!(run_plan(&mode, "some text", 0), Vec::<String>::new());
        assert_eq!(run_plan(&mode, "some text", -7), Vec::<String>::new());
    }
}

#[test]
fn positive_repeats_repeat_the_units() {
    assert_eq!(iterations_for(3), 3);
    assert_eq!(run_plan(&RunMode::SendWhole, "msg", 2), vec!["msg", "msg"]);
    assert_eq!(
        run_plan(&RunMode::SendByWord, "ab c  d", 2),
        vec!["ab", "c", "d", "ab", "c", "d"]
    );
    assert_eq!(run_plan(&RunMode::SendByCharacter, "ab c", 1), vec!["a", "b", "c"]);
}

#[test]
fn only_whole_and_word_modes_pause_between_repeats() {
    assert!(pause_between_repeats(&RunMode::SendWhole));
    assert!(pause_between_repeats(&RunMode::SendByWord));
    assert!(!pause_between_repeats(&RunMode::SendByCharacter));
    assert!(!pause_between_repeats(&RunMode::ShowCoordinates));
    assert!(!pause_between_repeats(&RunMode::Exit));
}

#[test]
fn exit_region_is_the_origin_corner() {
    assert!(in_exit_region(0, 0));
    assert!(in_exit_region(5, 5));
    assert!(in_exit_region(3, 1));
    assert!(!in_exit_region(6, 3));
    assert!(!in_exit_region(3, 6));
    assert!(!in_exit_region(-1, 0));
    assert!(!in_exit_region(100, 100));
}

#[test]
fn coordinate_session_stops_at_first_poll_in_region() {
    let polls = vec![
        ScreenPosition { x: 100, y: 100 },
        ScreenPosition { x: 6, y: 3 },
        ScreenPosition { x: 5, y: 5 },
        ScreenPosition { x: 0, y: 0 },
    ];
    assert_eq!(show_screen_coords(&polls), Some(2));
}

#[test]
fn coordinate_session_never_stops_outside_region() {
    let polls = vec![ScreenPosition { x: 9, y: 9 }, ScreenPosition { x: -2, y: 0 }];
    assert_eq!(show_screen_coords(&polls), None);
    assert_eq!(show_screen_coords(&Vec::new()), None);
}
