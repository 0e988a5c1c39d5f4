use benchbot::chimp::{
    click_points, missing_positions, next_pass, numbers_from_attributes, parse_numbers_from_html, round_clicks, sort_by_number,
    NumberPosition,
};
use benchbot::control::{watcher_step, Coordinator, Event, Phase, WatcherAction};
use benchbot::geometry::Point;
use benchbot::grid::ChimpGrid;
use benchbot::menu::{get_numeric_input, is_click_prompt, menu_choice_of, parse_menu_choice, read_numeric, MenuChoice, NumericInput};
use benchbot::text::parse_u32;
use benchbot::verbal::{WordChoice, WordMemory};

fn np(number: u32, row: usize, col: usize) -> NumberPosition {
    NumberPosition { number, row, col }
}

#[test]
fn kill_switch_stops_and_sets_flag() {
    let mut c = Coordinator::new();
    assert!(c.handle(Event::Poll { kill_pressed: false, flag_seen: false }));
    assert!(!c.is_stopped());
    assert!(!c.handle(Event::Poll { kill_pressed: true, flag_seen: false }));
    assert!(c.is_stopped());
    assert_eq!(c.phase(), Phase::Stopping);
    assert!(!c.handle(Event::WatcherJoined));
    assert_eq!(c.phase(), Phase::Joined);
    assert!(!c.handle(Event::Poll { kill_pressed: false, flag_seen: false }));
    assert!(c.is_stopped());
}

#[test]
fn completion_flag_stays_set() {
    let mut c = Coordinator::new();
    c.handle(Event::Completed);
    assert!(c.is_stopped());
    assert_eq!(c.phase(), Phase::Running);
    assert!(!c.handle(Event::Poll { kill_pressed: false, flag_seen: false }));
    assert_eq!(c.phase(), Phase::Stopping);
    c.handle(Event::Poll { kill_pressed: false, flag_seen: false });
    assert!(c.is_stopped());
}

#[test]
fn join_before_stop_changes_nothing() {
    let mut c = Coordinator::new();
    assert!(c.handle(Event::WatcherJoined));
    assert_eq!(c.phase(), Phase::Running);
}

#[test]
fn watcher_decisions() {
    assert_eq!(watcher_step(true, true), WatcherAction::Exit);
    assert_eq!(watcher_step(true, false), WatcherAction::Exit);
    assert_eq!(watcher_step(false, true), WatcherAction::SignalAndExit);
    assert_eq!(watcher_step(false, false), WatcherAction::WaitAndPoll);
}

#[test]
fn parse_u32_like_from_str() {
    assert_eq!(parse_u32("42"), Some(42));
    assert_eq!(parse_u32("+7"), Some(7));
    assert_eq!(parse_u32("007"), Some(7));
    assert_eq!(parse_u32("4294967295"), Some(u32::MAX));
    assert_eq!(parse_u32("4294967296"), None);
    assert_eq!(parse_u32("99999999999999999999"), None);
    assert_eq!(parse_u32(""), None);
    assert_eq!(parse_u32("+"), None);
    assert_eq!(parse_u32("-1"), None);
    assert_eq!(parse_u32("12a"), None);
    assert_eq!(parse_u32(" 1"), None);
    for s in ["0", "1", "65535", "+00", "123456789"] {
        assert_eq!(parse_u32(s), s.parse::<u32>().ok());
    }
}

#[test]
fn numbers_read_row_major() {
    let table = vec![
        vec![None, Some("3".to_string()), Some("x".to_string())],
        vec![Some("1".to_string()), None],
        vec![Some("2".to_string())],
    ];
    assert_eq!(numbers_from_attributes(&table), vec![np(3, 0, 1), np(1, 1, 0), np(2, 2, 0)]);
}

#[test]
fn sort_by_number_is_stable() {
    let v = vec![np(3, 0, 0), np(1, 0, 1), np(2, 1, 0), np(1, 1, 1)];
    assert_eq!(sort_by_number(&v), vec![np(1, 0, 1), np(1, 1, 1), np(2, 1, 0), np(3, 0, 0)]);
    assert_eq!(sort_by_number(&vec![]), vec![]);
}

#[test]
fn click_points_skip_unknown_cells() {
    let g = ChimpGrid::from_rows(&vec![vec![Point { x: 10, y: 10 }, Point { x: 20, y: 10 }]]);
    let order = vec![np(1, 0, 1), np(2, 3, 0), np(3, 0, 0)];
    assert_eq!(click_points(&g, &order), vec![Point { x: 20, y: 10 }, Point { x: 10, y: 10 }]);
    assert_eq!(missing_positions(&g, &order), vec![np(2, 3, 0)]);
}

#[test]
fn html_numbers_are_found() {
    let html = r#"<html><body><div class="css-k008qs"><div class="css-ggichp" data-cellnumber="2"></div><div class="css-19b5rdt"></div></div><div class="css-k008qs"><div class="css-19b5rdt"></div><div class="css-ggichp" data-cellnumber="1"></div></div></body></html>"#;
    assert_eq!(parse_numbers_from_html(html), Some(vec![np(2, 0, 0), np(1, 1, 1)]));
    let g = ChimpGrid::from_rows(&vec![
        vec![Point { x: 1, y: 1 }, Point { x: 2, y: 1 }],
        vec![Point { x: 1, y: 2 }, Point { x: 2, y: 2 }],
    ]);
    assert_eq!(round_clicks(&g, html), Some(vec![Point { x: 2, y: 2 }, Point { x: 1, y: 1 }]));
}

#[test]
fn passes_end_after_the_last() {
    assert_eq!(next_pass(1), Some(2));
    assert_eq!(next_pass(36), Some(37));
    assert_eq!(next_pass(37), None);
    assert_eq!(next_pass(200), None);
}

#[test]
fn word_memory_decisions() {
    let mut m = WordMemory::new();
    assert_eq!(m.observe(String::new()), None);
    assert_eq!(m.observe("apple".to_string()), Some(WordChoice::New));
    assert_eq!(m.observe("apple".to_string()), None);
    assert_eq!(m.observe("pear".to_string()), Some(WordChoice::New));
    assert_eq!(m.observe("apple".to_string()), Some(WordChoice::Seen));
    assert!(m.contains(&"pear".to_string()));
    assert!(!m.contains(&"plum".to_string()));
}

#[test]
fn menu_choices() {
    assert_eq!(parse_menu_choice("  Reaction-Time \n"), MenuChoice::ReactionTime);
    assert_eq!(parse_menu_choice("6\n"), MenuChoice::ChimpTest);
    assert_eq!(parse_menu_choice("Q"), MenuChoice::Quit);
    assert_eq!(parse_menu_choice("exit"), MenuChoice::Quit);
    assert_eq!(parse_menu_choice("   \n"), MenuChoice::Empty);
    assert_eq!(parse_menu_choice("10"), MenuChoice::Invalid);
    assert_eq!(menu_choice_of("visual-memory"), MenuChoice::VisualMemory);
    assert_eq!(menu_choice_of("Visual"), MenuChoice::Invalid);
}

#[test]
fn numeric_input_defaults() {
    assert_eq!(get_numeric_input(" 12\n", 10), 12);
    assert_eq!(get_numeric_input("\n", 10), 10);
    assert_eq!(get_numeric_input("abc", 10), 10);
    assert_eq!(get_numeric_input("-3", 10), 10);
    assert_eq!(get_numeric_input("\u{3000}25\t", 10), 25);
    assert_eq!(read_numeric("  \n"), NumericInput::Blank);
    assert_eq!(read_numeric(" 7 "), NumericInput::Number(7));
    assert_eq!(read_numeric("seven"), NumericInput::Invalid);
}

#[test]
fn click_prompt_detection() {
    assert!(is_click_prompt("<div><h1>Click!</h1></div>"));
    assert!(!is_click_prompt("<div>Wait for green</div>"));
    assert!(!is_click_prompt("Click"));
}
