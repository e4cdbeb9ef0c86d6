use wiring_register::names::{order_names, NameOrder};

#[test]
fn equal_names_are_the_same() {
    assert_eq!(order_names("log", "log"), NameOrder::Same);
    assert_eq!(order_names("", ""), NameOrder::Same);
}

#[test]
fn a_prefix_comes_before_its_extensions() {
    assert_eq!(order_names("log", "logger"), NameOrder::Before);
    assert_eq!(order_names("logger", "log"), NameOrder::After);
    assert_eq!(order_names("", "a"), NameOrder::Before);
    assert_eq!(order_names("a", ""), NameOrder::After);
}

#[test]
fn the_first_difference_decides() {
    assert_eq!(order_names("clock", "log"), NameOrder::Before);
    assert_eq!(order_names("log", "clock"), NameOrder::After);
    assert_eq!(order_names("abd", "abc"), NameOrder::After);
    assert_eq!(order_names("abc", "abd"), NameOrder::Before);
    assert_eq!(order_names("b", "abc"), NameOrder::After);
}

#[test]
fn upper_case_comes_before_lower_case() {
    assert_eq!(order_names("Zeta", "alpha"), NameOrder::Before);
    assert_eq!(order_names("alpha", "Zeta"), NameOrder::After);
}

#[test]
fn characters_are_ordered_by_code_point() {
    assert_eq!(order_names("z", "\u{e9}"), NameOrder::Before);
    assert_eq!(order_names("\u{e9}", "\u{4e2d}"), NameOrder::Before);
    assert_eq!(order_names("\u{10348}", "\u{ffff}"), NameOrder::After);
    assert_eq!(order_names("caf\u{e9}", "caf\u{e9}"), NameOrder::Same);
}

#[test]
fn the_order_of_names_is_that_of_strings() {
    let names = ["", "a", "A", "ab", "b", "log", "logger", "clock", "\u{e9}", "z", "Z"];
    for a in names {
        for b in names {
            let expected = if a < b {
                NameOrder::Before
            } else if a == b {
                NameOrder::Same
            } else {
                NameOrder::After
            };
            assert_eq!(order_names(a, b), expected);
        }
    }
}
