use flag::Flag;

fn reg(tokens: &[&str]) -> Flag {
    Flag::new(tokens.iter().map(|s| s.to_string()).collect())
}

#[test]
fn eq_token_records_value() {
    let mut f = reg(&["prog", "--name=alice", "extra"]);
    assert_eq!(f.get_str("--name", "a name"), Some("alice".to_string()));
    // the token after `--name=alice` is not consumed as anyone's value
    assert_eq!(f.get_str("extra", "stray"), None);
}

#[test]
fn eq_splits_at_first_eq_only() {
    let mut f = reg(&["prog", "--opt=a=b"]);
    assert_eq!(f.get_str("--opt", "d"), Some("a=b".to_string()));
}

#[test]
fn eq_token_with_empty_value() {
    let mut f = reg(&["prog", "--empty="]);
    assert_eq!(f.get_str("--empty", "d"), Some(String::new()));
    assert_eq!(f.get_i32("--empty", "d"), None);
}

#[test]
fn bare_flag_takes_next_token() {
    let mut f = reg(&["prog", "--flag", "123"]);
    assert_eq!(f.get_i32("--flag", "d"), Some(123));
    assert_eq!(f.get_u32("--flag", "d"), Some(123));
    assert_eq!(f.get_str("--flag", "d"), Some("123".to_string()));
}

#[test]
fn presence_is_whole_token() {
    let mut f = reg(&["prog", "--v", "--k=1"]);
    assert!(f.get_bool("--v", "d"));
    assert!(f.get_bool("--k=1", "d"));
    assert!(!f.get_bool("--k", "d"));
    assert!(!f.get_bool("--w", "d"));
    assert!(f.get_bool("prog", "d"));
}

#[test]
fn non_numeric_value_is_absent() {
    let mut f = reg(&["prog", "--n", "abc"]);
    assert_eq!(f.get_i32("--n", "d"), None);
    assert_eq!(f.fget_i32("--n", 42, "d"), 42);
    assert_eq!(f.get_u32("--n", "d"), None);
    assert_eq!(f.fget_u32("--n", 42, "d"), 42);
    assert_eq!(f.get_str("--n", "d"), Some("abc".to_string()));
}

#[test]
fn trailing_garbage_does_not_parse() {
    let mut f = reg(&["prog", "--n=12x"]);
    assert_eq!(f.get_i32("--n", "d"), None);
    assert_eq!(f.fget_i32("--n", -7, "d"), -7);
}

#[test]
fn never_supplied_falls_back() {
    let mut f = reg(&["prog"]);
    assert_eq!(f.fget_str("--m", "default", "d"), "default".to_string());
    assert_eq!(f.get_str("--m", "d"), None);
    assert_eq!(f.fget_u32("--m", 7, "d"), 7);
    assert_eq!(f.fget_i32("--m", -1, "d"), -1);
    assert!(!f.get_bool("--m", "d"));
}

#[test]
fn consecutive_bare_flags() {
    let mut f = reg(&["prog", "--a", "--b", "val"]);
    assert_eq!(f.get_str("--a", "d"), None);
    assert!(f.get_bool("--a", "d"));
    assert_eq!(f.get_str("--b", "d"), Some("val".to_string()));
}

#[test]
fn pending_flag_dropped_by_eq_token() {
    let mut f = reg(&["prog", "--a", "--b=1"]);
    assert_eq!(f.get_str("--a", "d"), None);
    assert_eq!(f.get_str("--b", "d"), Some("1".to_string()));
}

#[test]
fn trailing_bare_flag_has_no_value() {
    let mut f = reg(&["prog", "--tail"]);
    assert_eq!(f.get_str("--tail", "d"), None);
    assert!(f.get_bool("--tail", "d"));
}

#[test]
fn plain_token_without_pending_is_ignored() {
    let mut f = reg(&["prog", "stray", "--k=v"]);
    assert_eq!(f.get_str("stray", "d"), None);
    assert_eq!(f.get_str("prog", "d"), None);
    assert_eq!(f.get_str("--k", "d"), Some("v".to_string()));
}

#[test]
fn last_value_wins() {
    let mut f = reg(&["prog", "--k=1", "--k=2"]);
    assert_eq!(f.get_str("--k", "d"), Some("2".to_string()));
    let mut g = reg(&["prog", "--k", "x", "--k=9"]);
    assert_eq!(g.get_str("--k", "d"), Some("9".to_string()));
}

#[test]
fn single_dash_and_double_dash_are_distinct() {
    let mut f = reg(&["prog", "-x=1", "--x=2"]);
    assert_eq!(f.get_str("-x", "d"), Some("1".to_string()));
    assert_eq!(f.get_str("--x", "d"), Some("2".to_string()));
}

#[test]
fn accessors_are_idempotent_on_values() {
    let mut f = reg(&["prog", "--k=5", "--v"]);
    assert_eq!(f.get_i32("--k", "first"), Some(5));
    assert_eq!(f.get_i32("--k", "second"), Some(5));
    assert_eq!(f.get_str("--k", "third"), Some("5".to_string()));
    assert!(f.get_bool("--v", "again"));
    assert!(f.get_bool("--v", "again"));
}

#[test]
fn generic_accessor_parses_and_falls_back() {
    let mut f = reg(&["prog", "--b=true", "--p", "8080"]);
    assert_eq!(f.get::<bool>("--b", "d"), Some(true));
    assert_eq!(f.get::<u16>("--p", "d"), Some(8080));
    assert_eq!(f.get::<i64>("--b", "d"), None);
    assert_eq!(f.fget::<i64>("--b", 99, "d"), 99);
    assert_eq!(f.fget::<u16>("--p", 1, "d"), 8080);
    assert_eq!(f.get::<u16>("--missing", "d"), None);
}
