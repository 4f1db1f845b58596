use task_tui::text::{compare, Order};

#[test]
fn equal_strings_are_the_same() {
    assert_eq!(compare("", ""), Order::Same);
    assert_eq!(compare("build", "build"), Order::Same);
}

#[test]
fn a_prefix_comes_first() {
    assert_eq!(compare("", "a"), Order::Before);
    assert_eq!(compare("a", ""), Order::After);
    assert_eq!(compare("build", "builder"), Order::Before);
    assert_eq!(compare("builder", "build"), Order::After);
}

#[test]
fn the_first_difference_decides() {
    assert_eq!(compare("abc", "abd"), Order::Before);
    assert_eq!(compare("abd", "abc"), Order::After);
    assert_eq!(compare("b", "abc"), Order::After);
    assert_eq!(compare("Z", "a"), Order::Before);
}

#[test]
fn compare_agrees_with_the_order_of_str() {
    let words = ["", "a", "A", "ab", "b", "é", "z", "zz", "日本", "task:one", "task-one", "😀"];
    for a in words {
        for b in words {
            let expected = match a.cmp(b) {
                std::cmp::Ordering::Less => Order::Before,
                std::cmp::Ordering::Equal => Order::Same,
                std::cmp::Ordering::Greater => Order::After,
            };
            assert_eq!(compare(a, b), expected, "{:?} against {:?}", a, b);
        }
    }
}
