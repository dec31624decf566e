use game_of_life::args::{parse_arg, parse_usize};

fn args(v: &[&str]) -> Vec<String> {
    v.iter().map(|s| s.to_string()).collect()
}

#[test]
fn parses_decimal_numbers() {
    assert_eq!(parse_usize("800"), Some(800));
    assert_eq!(parse_usize("0"), Some(0));
    assert_eq!(parse_usize("+64"), Some(64));
    assert_eq!(parse_usize(&usize::MAX.to_string()), Some(usize::MAX));
}

#[test]
fn rejects_non_numbers() {
    assert_eq!(parse_usize(""), None);
    assert_eq!(parse_usize("+"), None);
    assert_eq!(parse_usize("-3"), None);
    assert_eq!(parse_usize("12a"), None);
    assert_eq!(parse_usize("a12"), None);
    assert_eq!(parse_usize("1 2"), None);
    assert_eq!(parse_usize("12.5"), None);
}

#[test]
fn rejects_overflow() {
    // one past usize::MAX
    assert_eq!(parse_usize("18446744073709551616"), None);
    assert_eq!(parse_usize("99999999999999999999999999"), None);
}

#[test]
fn argument_present_and_numeric() {
    let a = args(&["prog", "800", "600"]);
    assert_eq!(parse_arg(&a, 1, 1000), 800);
    assert_eq!(parse_arg(&a, 2, 1000), 600);
}

#[test]
fn argument_missing_gives_default() {
    let a = args(&["prog"]);
    assert_eq!(parse_arg(&a, 1, 1000), 1000);
    assert_eq!(parse_arg(&a, 4, 64), 64);
}

#[test]
fn argument_unparsable_gives_default() {
    let a = args(&["prog", "eight", "-600", ""]);
    assert_eq!(parse_arg(&a, 1, 1000), 1000);
    assert_eq!(parse_arg(&a, 2, 1000), 1000);
    assert_eq!(parse_arg(&a, 3, 64), 64);
}
