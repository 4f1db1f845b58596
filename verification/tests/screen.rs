use task_tui::app::{init, run, App, Source, Taskfile, Value};
use task_tui::event::{Event, KeyCode, KeyEvent, KeyEventKind, Tick};
use task_tui::tui::{ui, Rgb, Span, DESCRIPTION_TITLE, SUMMARY_TITLE, TASKS_TITLE};

fn app() -> App {
    let file = Taskfile {
        version: "3".to_string(),
        tasks: vec![
            ("test".to_string(), vec![("summary".to_string(), Value::Other)]),
            (
                "build".to_string(),
                vec![
                    ("desc".to_string(), Value::Text("Builds it".to_string())),
                    ("summary".to_string(), Value::Text("Compiles everything".to_string())),
                ],
            ),
        ],
    };
    init(&Source::Parsed(file)).unwrap()
}

#[test]
fn panel_titles() {
    assert_eq!(TASKS_TITLE, "Tasks");
    assert_eq!(DESCRIPTION_TITLE, "Description");
    assert_eq!(SUMMARY_TITLE, "Summary");
}

#[test]
fn screen_before_anything_is_selected() {
    let screen = ui(&app());
    assert_eq!(screen.tasks, vec!["build", "test"]);
    assert_eq!(screen.selected, None);
    assert_eq!(screen.description, "Item not found.");
    assert_eq!(screen.summary, "Item not found.");
}

#[test]
fn screen_shows_the_selected_task() {
    let mut app = app();
    run(&mut app, &vec![]).unwrap();
    let screen = ui(&app);
    assert_eq!(screen.tasks, vec!["build", "test"]);
    assert_eq!(screen.selected, Some(0));
    assert_eq!(screen.description, "Builds it");
    assert_eq!(screen.summary, "Compiles everything");
}

#[test]
fn screen_follows_the_cursor() {
    let mut app = app();
    let down = Event::Key(KeyEvent { code: KeyCode::Down, kind: KeyEventKind::Press });
    run(&mut app, &vec![Tick::Event(down)]).unwrap();
    let screen = ui(&app);
    assert_eq!(screen.selected, Some(1));
    assert_eq!(screen.description, "Description is empty.");
    assert_eq!(screen.summary, "Not a string.");
}

#[test]
fn drawing_changes_nothing() {
    let mut app = app();
    run(&mut app, &vec![]).unwrap();
    let first = ui(&app);
    let second = ui(&app);
    assert_eq!(first, second);
    assert_eq!(app.items().selected(), Some(0));
}

#[test]
fn highlight_is_green() {
    let screen = ui(&app());
    assert_eq!(screen.highlight, Rgb { r: 0x13, g: 0xa4, b: 0x63 });
    assert_eq!(screen.highlight, Rgb { r: 19, g: 164, b: 99 });
}

#[test]
fn footer_names_the_keys() {
    let screen = ui(&app());
    assert_eq!(
        screen.footer,
        vec![
            Span { text: "(q) / (Esc)".to_string(), color: Some(Rgb { r: 0xd4, g: 0x5e, b: 0x7b }) },
            Span { text: " to quit | ".to_string(), color: None },
            Span { text: "(Enter)".to_string(), color: Some(Rgb { r: 0xee, g: 0x99, b: 0x66 }) },
            Span { text: " to select task".to_string(), color: None },
        ]
    );
}
