use task_tui::app::{ItemList, Value};

fn list_of(names: &[&str]) -> ItemList {
    let mut items = ItemList::new();
    for name in names {
        items.add_item(name.to_string(), None, None);
    }
    items
}

fn at(names: &[&str], cursor: usize) -> ItemList {
    let mut items = list_of(names);
    items.select_first();
    for _ in 0..cursor {
        items.select_next();
    }
    items
}

#[test]
fn new_list_is_empty_and_unselected() {
    let items = ItemList::new();
    assert_eq!(items.len(), 0);
    assert_eq!(items.selected(), None);
    assert!(items.current().is_none());
    assert!(items.name_list().is_empty());
}

#[test]
fn select_first_sets_cursor_to_zero_from_any_state() {
    for len in 1..6usize {
        let names: Vec<String> = (0..len).map(|i| format!("t{}", i)).collect();
        let names: Vec<&str> = names.iter().map(|s| s.as_str()).collect();
        let mut unset = list_of(&names);
        unset.select_first();
        assert_eq!(unset.selected(), Some(0));
        for cursor in 0..len {
            let mut items = at(&names, cursor);
            assert_eq!(items.selected(), Some(cursor));
            items.select_first();
            assert_eq!(items.selected(), Some(0));
        }
    }
}

#[test]
fn next_then_prev_restores_cursor() {
    for len in 1..6usize {
        let names: Vec<String> = (0..len).map(|i| format!("t{}", i)).collect();
        let names: Vec<&str> = names.iter().map(|s| s.as_str()).collect();
        for cursor in 0..len {
            let mut items = at(&names, cursor);
            items.select_next();
            items.select_prev();
            assert_eq!(items.selected(), Some(cursor));
        }
    }
}

#[test]
fn prev_then_next_restores_cursor() {
    for len in 1..6usize {
        let names: Vec<String> = (0..len).map(|i| format!("t{}", i)).collect();
        let names: Vec<&str> = names.iter().map(|s| s.as_str()).collect();
        for cursor in 0..len {
            let mut items = at(&names, cursor);
            items.select_prev();
            items.select_next();
            assert_eq!(items.selected(), Some(cursor));
        }
    }
}

#[test]
fn as_many_steps_as_entries_come_full_circle() {
    for len in 1..8usize {
        let names: Vec<String> = (0..len).map(|i| format!("t{}", i)).collect();
        let names: Vec<&str> = names.iter().map(|s| s.as_str()).collect();
        for cursor in 0..len {
            let mut items = at(&names, cursor);
            for _ in 0..len {
                items.select_next();
            }
            assert_eq!(items.selected(), Some(cursor));
        }
    }
}

#[test]
fn next_moves_one_forward() {
    let mut items = at(&["a", "b", "c"], 0);
    items.select_next();
    assert_eq!(items.selected(), Some(1));
    items.select_next();
    assert_eq!(items.selected(), Some(2));
}

#[test]
fn prev_moves_one_backward() {
    let mut items = at(&["a", "b", "c"], 2);
    items.select_prev();
    assert_eq!(items.selected(), Some(1));
    items.select_prev();
    assert_eq!(items.selected(), Some(0));
}

#[test]
fn next_wraps_from_last_to_first() {
    let mut items = at(&["a", "b", "c"], 2);
    items.select_next();
    assert_eq!(items.selected(), Some(0));
}

#[test]
fn prev_wraps_from_first_to_last() {
    let mut items = at(&["a", "b", "c"], 0);
    items.select_prev();
    assert_eq!(items.selected(), Some(2));
}

#[test]
fn single_entry_stays_selected() {
    let mut items = at(&["only"], 0);
    items.select_next();
    assert_eq!(items.selected(), Some(0));
    items.select_prev();
    assert_eq!(items.selected(), Some(0));
}

#[test]
fn next_on_unset_cursor_selects_first() {
    let mut items = list_of(&["a", "b", "c"]);
    assert_eq!(items.selected(), None);
    items.select_next();
    assert_eq!(items.selected(), Some(0));
}

#[test]
fn prev_on_unset_cursor_selects_first() {
    let mut items = list_of(&["a", "b", "c"]);
    items.select_prev();
    assert_eq!(items.selected(), Some(0));
}

#[test]
fn current_is_the_entry_under_the_cursor() {
    let mut items = ItemList::new();
    items.add_item("build".to_string(), Some(Value::Text("Builds it".to_string())), None);
    items.add_item("test".to_string(), None, Some(Value::Other));
    assert!(items.current().is_none());
    items.select_first();
    let (name, props) = items.current().unwrap();
    assert_eq!(name, "build");
    assert_eq!(props.desc, Some(Value::Text("Builds it".to_string())));
    assert_eq!(props.summary, None);
    items.select_next();
    let (name, props) = items.current().unwrap();
    assert_eq!(name, "test");
    assert_eq!(props.desc, None);
    assert_eq!(props.summary, Some(Value::Other));
}

#[test]
fn items_are_kept_in_ascending_order_of_names() {
    let items = list_of(&["test", "build", "deploy", "Build", "b", ""]);
    assert_eq!(items.name_list(), vec!["", "Build", "b", "build", "deploy", "test"]);
    assert_eq!(items.len(), 6);
}

#[test]
fn adding_a_name_again_replaces_its_properties() {
    let mut items = ItemList::new();
    items.add_item("a".to_string(), Some(Value::Text("first".to_string())), None);
    items.add_item("b".to_string(), None, None);
    items.add_item("a".to_string(), None, Some(Value::Text("second".to_string())));
    assert_eq!(items.len(), 2);
    assert_eq!(items.name_list(), vec!["a", "b"]);
    items.select_first();
    let (_, props) = items.current().unwrap();
    assert_eq!(props.desc, None);
    assert_eq!(props.summary, Some(Value::Text("second".to_string())));
}

#[test]
fn adding_keeps_the_cursor_position() {
    let mut items = at(&["b", "c"], 1);
    items.add_item("a".to_string(), None, None);
    assert_eq!(items.selected(), Some(1));
    assert_eq!(items.current().unwrap().0, "b");
}
