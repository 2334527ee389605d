use memory_usage::args::{parse_args, parse_prefix, prefix_from_lowered, UsageError};
use memory_usage::units::Prefix;

fn strings(v: &[&str]) -> Vec<String> {
    v.iter().map(|s| s.to_string()).collect()
}

#[test]
fn no_arguments_is_a_usage_error() {
    assert!(matches!(parse_args(&strings(&[])), Err(UsageError::MissingFilter)));
}

#[test]
fn three_arguments_is_a_usage_error() {
    assert!(matches!(
        parse_args(&strings(&["bash", "binary", "extra"])),
        Err(UsageError::TooManyArguments)
    ));
}

#[test]
fn hex_is_an_invalid_prefix() {
    match parse_args(&strings(&["bash", "hex"])) {
        Err(UsageError::InvalidPrefix(t)) => assert_eq!(t, "hex"),
        _ => panic!("expected an invalid prefix"),
    }
}

#[test]
fn decimal_is_the_default() {
    let c = parse_args(&strings(&["bash"])).ok().unwrap();
    assert_eq!(c.filter, "bash");
    assert_eq!(c.prefix, Prefix::Decimal);
}

#[test]
fn prefix_is_read_in_any_case() {
    let c = parse_args(&strings(&["sh", "BiNaRy"])).ok().unwrap();
    assert_eq!(c.filter, "sh");
    assert_eq!(c.prefix, Prefix::Binary);
    assert_eq!(parse_prefix("DECIMAL"), Some(Prefix::Decimal));
    assert_eq!(parse_prefix("binary"), Some(Prefix::Binary));
    assert_eq!(parse_prefix("bin"), None);
}

#[test]
fn lowered_tokens() {
    assert_eq!(prefix_from_lowered(&"decimal".to_string()), Some(Prefix::Decimal));
    assert_eq!(prefix_from_lowered(&"binary".to_string()), Some(Prefix::Binary));
    assert_eq!(prefix_from_lowered(&"Binary".to_string()), None);
}
