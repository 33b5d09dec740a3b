use pobox::casing::{pascal, snake, snake_marked};

#[test]
fn pascal_cases() {
    assert_eq!(pascal("foo_bar"), "FooBar");
    assert_eq!(pascal("get"), "Get");
    assert_eq!(pascal(""), "");
    assert_eq!(pascal("_a__b"), "AB");
    assert_eq!(pascal("x1_y2"), "X1Y2");
    assert_eq!(pascal("already_Upper"), "AlreadyUpper");
}

#[test]
fn snake_cases() {
    assert_eq!(snake("FooBar"), "foo_bar");
    assert_eq!(snake("fooBar"), "foo_bar");
    assert_eq!(snake(""), "");
    assert_eq!(snake("HTTP"), "h_t_t_p");
    assert_eq!(snake("a1B2"), "a1_b2");
}

#[test]
fn snake_with_given_marks() {
    assert_eq!(snake_marked("AbC", &vec![true, false, true]), "ab_c");
    assert_eq!(snake_marked("AbC", &vec![false, false, false]), "AbC");
    assert_eq!(snake_marked("xY", &vec![false, true]), "x_y");
}

#[test]
fn snake_keeps_non_ascii_upper_case_letters() {
    assert_eq!(snake("a\u{c9}b"), "a_\u{c9}b");
    assert_eq!(snake("\u{e9}T"), "\u{e9}_t");
}
