use trigger_point::{decimal_string, join};

#[test]
fn join_of_nothing_is_empty() {
    assert_eq!(join(&Vec::new(), " and "), "");
}

#[test]
fn join_of_one_part_has_no_separator() {
    assert_eq!(join(&vec!["a".to_string()], " and "), "a");
}

#[test]
fn join_puts_the_separator_between_neighbours() {
    let parts = vec!["a".to_string(), "b".to_string(), "c".to_string()];
    assert_eq!(join(&parts, " and "), "a and b and c");
    assert_eq!(join(&parts, ""), "abc");
}

#[test]
fn join_keeps_empty_parts() {
    let parts = vec![String::new(), "b".to_string(), String::new()];
    assert_eq!(join(&parts, "-"), "-b-");
}

#[test]
fn join_agrees_with_std() {
    let parts = vec!["x".to_string(), "yy".to_string(), "".to_string(), "zzz".to_string()];
    assert_eq!(join(&parts, "\n  or\n"), parts.join("\n  or\n"));
}

#[test]
fn decimal_of_single_digits() {
    assert_eq!(decimal_string(0), "0");
    assert_eq!(decimal_string(7), "7");
    assert_eq!(decimal_string(9), "9");
}

#[test]
fn decimal_of_two_and_three_digits() {
    assert_eq!(decimal_string(10), "10");
    assert_eq!(decimal_string(42), "42");
    assert_eq!(decimal_string(99), "99");
    assert_eq!(decimal_string(100), "100");
    assert_eq!(decimal_string(101), "101");
    assert_eq!(decimal_string(110), "110");
    assert_eq!(decimal_string(205), "205");
    assert_eq!(decimal_string(255), "255");
}

#[test]
fn decimal_agrees_with_std_on_every_value() {
    for n in 0..=u8::MAX {
        assert_eq!(decimal_string(n), n.to_string());
    }
}
