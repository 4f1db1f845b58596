use task_tui::app::{init, run, task_exec, App, InteractionOutcome, Source, Taskfile, Value};
use task_tui::errors::Error;
use task_tui::event::{Event, KeyCode, KeyEvent, KeyEventKind, Tick};
use task_tui::Args;

fn press(code: KeyCode) -> Event {
    Event::Key(KeyEvent { code, kind: KeyEventKind::Press })
}

fn key(code: KeyCode) -> Tick {
    Tick::Event(press(code))
}

fn build_and_test() -> App {
    let file = Taskfile {
        version: "3".to_string(),
        tasks: vec![
            ("build".to_string(), vec![("desc".to_string(), Value::Text("Builds it".to_string()))]),
            ("test".to_string(), vec![]),
        ],
    };
    init(&Source::Parsed(file)).unwrap()
}

#[test]
fn end_to_end_loads_in_order() {
    let app = build_and_test();
    assert_eq!(app.name_list(), vec!["build", "test"]);
}

#[test]
fn end_to_end_initial_render_selects_build() {
    let mut app = build_and_test();
    let ended = run(&mut app, &vec![]);
    assert_eq!(ended, Ok(None));
    assert_eq!(app.get_current(), Some("build"));
    assert_eq!(app.get_desc(), "Builds it");
    assert_eq!(app.get_summary(), "Summary is empty.");
}

#[test]
fn end_to_end_down_selects_test() {
    let mut app = build_and_test();
    let ended = run(&mut app, &vec![key(KeyCode::Down)]);
    assert_eq!(ended, Ok(None));
    assert_eq!(app.get_current(), Some("test"));
    assert_eq!(app.get_desc(), "Description is empty.");
}

#[test]
fn end_to_end_second_down_wraps_to_build() {
    let mut app = build_and_test();
    let ended = run(&mut app, &vec![key(KeyCode::Down), key(KeyCode::Down)]);
    assert_eq!(ended, Ok(None));
    assert_eq!(app.get_current(), Some("build"));
}

#[test]
fn end_to_end_escape_quits() {
    let mut app = build_and_test();
    let ended = run(&mut app, &vec![key(KeyCode::Down), key(KeyCode::Esc)]);
    assert_eq!(ended, Ok(Some(InteractionOutcome::Quit)));
    assert!(!app.execute_selected());
}

#[test]
fn end_to_end_enter_on_test_confirms_test() {
    let mut app = build_and_test();
    let ended = run(&mut app, &vec![key(KeyCode::Down), key(KeyCode::Enter)]);
    assert_eq!(ended, Ok(Some(InteractionOutcome::Confirmed("test".to_string()))));
    assert!(app.execute_selected());
    assert_eq!(app.get_current(), Some("test"));
}

#[test]
fn q_quits() {
    let mut app = build_and_test();
    let ended = run(&mut app, &vec![key(KeyCode::Char('q'))]);
    assert_eq!(ended, Ok(Some(InteractionOutcome::Quit)));
}

#[test]
fn up_from_the_first_wraps_to_the_last() {
    let mut app = build_and_test();
    let ended = run(&mut app, &vec![key(KeyCode::Up)]);
    assert_eq!(ended, Ok(None));
    assert_eq!(app.get_current(), Some("test"));
}

#[test]
fn ticks_after_the_end_are_not_taken() {
    let mut app = build_and_test();
    let ended = run(&mut app, &vec![key(KeyCode::Esc), key(KeyCode::Down), key(KeyCode::Enter)]);
    assert_eq!(ended, Ok(Some(InteractionOutcome::Quit)));
    assert_eq!(app.get_current(), Some("build"));
    assert!(!app.execute_selected());
}

#[test]
fn quiet_ticks_change_nothing() {
    let mut app = build_and_test();
    let ended = run(&mut app, &vec![Tick::Quiet, key(KeyCode::Down), Tick::Quiet, Tick::Quiet]);
    assert_eq!(ended, Ok(None));
    assert_eq!(app.get_current(), Some("test"));
}

#[test]
fn a_failure_of_the_terminal_ends_the_session_at_once() {
    let mut app = build_and_test();
    let ended = run(&mut app, &vec![key(KeyCode::Down), Tick::Failed, key(KeyCode::Enter)]);
    assert_eq!(ended, Err(Error::TerminalIOError));
    assert_eq!(app.get_current(), Some("test"));
    assert!(!app.execute_selected());
}

#[test]
fn a_failure_on_the_first_tick_fails_the_session() {
    let mut app = build_and_test();
    assert_eq!(run(&mut app, &vec![Tick::Failed]), Err(Error::TerminalIOError));
}

#[test]
fn releases_repeats_and_other_events_change_nothing() {
    let mut app = build_and_test();
    let ticks = vec![
        Tick::Event(Event::Key(KeyEvent { code: KeyCode::Down, kind: KeyEventKind::Release })),
        Tick::Event(Event::Key(KeyEvent { code: KeyCode::Down, kind: KeyEventKind::Repeat })),
        Tick::Event(Event::Key(KeyEvent { code: KeyCode::Enter, kind: KeyEventKind::Release })),
        Tick::Event(Event::Key(KeyEvent { code: KeyCode::Esc, kind: KeyEventKind::Repeat })),
        Tick::Event(Event::Other),
        key(KeyCode::Char('x')),
        key(KeyCode::Other),
    ];
    let ended = run(&mut app, &ticks);
    assert_eq!(ended, Ok(None));
    assert_eq!(app.get_current(), Some("build"));
    assert!(!app.execute_selected());
}

#[test]
fn run_selects_the_first_task_again() {
    let mut app = build_and_test();
    run(&mut app, &vec![key(KeyCode::Down)]).unwrap();
    assert_eq!(app.get_current(), Some("test"));
    run(&mut app, &vec![]).unwrap();
    assert_eq!(app.get_current(), Some("build"));
}

#[test]
fn tick_takes_what_one_tick_brought() {
    let mut app = build_and_test();
    app.select_first();
    assert_eq!(app.tick(&Tick::Quiet), Ok(None));
    assert_eq!(app.items().selected(), Some(0));
    assert_eq!(app.tick(&key(KeyCode::Down)), Ok(None));
    assert_eq!(app.items().selected(), Some(1));
    assert_eq!(app.tick(&Tick::Failed), Err(Error::TerminalIOError));
    assert_eq!(app.items().selected(), Some(1));
    assert_eq!(
        app.tick(&key(KeyCode::Enter)),
        Ok(Some(InteractionOutcome::Confirmed("test".to_string())))
    );
}

#[test]
fn dispatch_takes_one_event() {
    let mut app = build_and_test();
    app.select_first();
    assert_eq!(app.dispatch(&press(KeyCode::Down)), None);
    assert_eq!(app.items().selected(), Some(1));
    assert_eq!(app.dispatch(&press(KeyCode::Up)), None);
    assert_eq!(app.items().selected(), Some(0));
    assert_eq!(app.dispatch(&Event::Other), None);
    assert_eq!(app.items().selected(), Some(0));
    assert_eq!(
        app.dispatch(&press(KeyCode::Enter)),
        Some(InteractionOutcome::Confirmed("build".to_string()))
    );
    assert!(app.execute_selected());
}

#[test]
fn dispatch_moves_an_unset_cursor_to_the_first_task() {
    let mut app = build_and_test();
    assert_eq!(app.dispatch(&press(KeyCode::Up)), None);
    assert_eq!(app.items().selected(), Some(0));
    let mut app = build_and_test();
    assert_eq!(app.dispatch(&press(KeyCode::Down)), None);
    assert_eq!(app.items().selected(), Some(0));
}

#[test]
fn confirming_with_nothing_selected_runs_nothing() {
    let mut app = build_and_test();
    assert_eq!(app.dispatch(&press(KeyCode::Enter)), Some(InteractionOutcome::Quit));
    assert!(app.execute_selected());
    assert_eq!(task_exec(&Args { global: false }, &app), None);
}

#[test]
fn command_line_for_the_local_taskfile() {
    let mut app = build_and_test();
    run(&mut app, &vec![key(KeyCode::Down), key(KeyCode::Enter)]).unwrap();
    assert_eq!(task_exec(&Args { global: false }, &app), Some("task test ".to_string()));
}

#[test]
fn command_line_for_the_global_taskfile() {
    let mut app = build_and_test();
    run(&mut app, &vec![key(KeyCode::Enter)]).unwrap();
    assert_eq!(task_exec(&Args { global: true }, &app), Some("task build -g".to_string()));
}
