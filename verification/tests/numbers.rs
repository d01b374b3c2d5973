use flag::Flag;

fn reg(tokens: &[&str]) -> Flag {
    Flag::new(tokens.iter().map(|s| s.to_string()).collect())
}

#[test]
fn signs_and_zero() {
    let mut f = reg(&["prog", "--a=+5", "--b=-0", "--c=007"]);
    assert_eq!(f.get_i32("--a", "d"), Some(5));
    assert_eq!(f.get_u32("--a", "d"), Some(5));
    assert_eq!(f.get_i32("--b", "d"), Some(0));
    assert_eq!(f.get_u32("--b", "d"), None);
    assert_eq!(f.get_i32("--c", "d"), Some(7));
    assert_eq!(f.get_u32("--c", "d"), Some(7));
}

#[test]
fn malformed_numbers() {
    let mut f = reg(&["prog", "--a=+-3", "--b=+", "--c=-", "--d= 5", "--e=5 "]);
    assert_eq!(f.get_i32("--a", "d"), None);
    assert_eq!(f.get_i32("--b", "d"), None);
    assert_eq!(f.get_i32("--c", "d"), None);
    assert_eq!(f.get_u32("--b", "d"), None);
    assert_eq!(f.get_i32("--d", "d"), None);
    assert_eq!(f.get_i32("--e", "d"), None);
}

#[test]
fn i32_range_edges() {
    let mut f = reg(&[
        "prog",
        "--max=2147483647",
        "--over=2147483648",
        "--min=-2147483648",
        "--under=-2147483649",
    ]);
    assert_eq!(f.get_i32("--max", "d"), Some(i32::MAX));
    assert_eq!(f.get_i32("--over", "d"), None);
    assert_eq!(f.get_i32("--min", "d"), Some(i32::MIN));
    assert_eq!(f.get_i32("--under", "d"), None);
    assert_eq!(f.get_u32("--over", "d"), Some(2147483648));
}

#[test]
fn u32_range_edges() {
    let mut f = reg(&[
        "prog",
        "--max=4294967295",
        "--over=4294967296",
        "--way=99999999999999999999",
    ]);
    assert_eq!(f.get_u32("--max", "d"), Some(u32::MAX));
    assert_eq!(f.get_u32("--over", "d"), None);
    assert_eq!(f.get_u32("--way", "d"), None);
    assert_eq!(f.get_i32("--way", "d"), None);
    assert_eq!(f.fget_u32("--way", 3, "d"), 3);
}
