use flag::Flag;

fn reg(tokens: &[&str]) -> Flag {
    Flag::new(tokens.iter().map(|s| s.to_string()).collect())
}

#[test]
fn help_before_any_accessor_is_empty() {
    let f = reg(&["prog", "--k=v"]);
    assert_eq!(f.help(), "usage: prog \noptions:\n");
}

#[test]
fn help_with_no_arguments_at_all() {
    let f = Flag::new(Vec::new());
    assert_eq!(f.help(), "usage:  \noptions:\n");
}

#[test]
fn help_lists_declared_flags_in_order() {
    let mut f = reg(&["prog", "--x=a"]);
    f.get_str("--x", "does x");
    f.get_i32("--n", "a count");
    let expected = format!(
        "usage: prog [--x, string] [--n, integer]\noptions:\n  --x{} does x\n  --n{} a count",
        " ".repeat(17),
        " ".repeat(17),
    );
    assert_eq!(f.help(), expected);
}

#[test]
fn help_shows_every_tag_word() {
    let mut f = reg(&["prog"]);
    f.get_str("--s", "s");
    f.get_i32("--i", "i");
    f.get_u32("--u", "u");
    f.get_bool("--b", "b");
    f.get::<u16>("--g", "g");
    let h = f.help();
    assert_eq!(
        h.lines().next().unwrap(),
        "usage: prog [--s, string] [--i, integer] [--u, unsigned] [--b, bool] [--g, complex]"
    );
}

#[test]
fn redeclaring_overwrites_description_and_tag() {
    let mut f = reg(&["prog", "--x=1"]);
    f.get_str("--x", "first");
    f.get_u32("--x", "second");
    let expected = format!(
        "usage: prog [--x, unsigned]\noptions:\n  --x{} second",
        " ".repeat(17),
    );
    assert_eq!(f.help(), expected);
}

#[test]
fn long_flag_name_pushes_description_to_next_line() {
    let mut f = reg(&["prog"]);
    let key = "--averyverylongflagname";
    assert!(key.len() >= 20);
    f.get_str(key, "its story");
    let expected = format!(
        "usage: prog [{key}, string]\noptions:\n  {key}{}  \n its story",
        " ".repeat(20),
    );
    assert_eq!(f.help(), expected);
}

#[test]
fn twenty_character_flag_name_also_breaks_the_line() {
    let mut f = reg(&["prog"]);
    let key = "--exactlytwentychars";
    assert_eq!(key.len(), 20);
    f.get_bool(key, "on the edge");
    let expected = format!(
        "usage: prog [{key}, bool]\noptions:\n  {key}{}  \n on the edge",
        " ".repeat(20),
    );
    assert_eq!(f.help(), expected);
}

#[test]
fn prefix_is_prepended_once_set() {
    let mut f = reg(&["prog"]);
    f.set_help_message_prefix("A tiny tool.\n");
    f.get_str("--x", "does x");
    let expected = format!(
        "A tiny tool.\nusage: prog [--x, string]\noptions:\n  --x{} does x",
        " ".repeat(17),
    );
    assert_eq!(f.help(), expected);
}

#[test]
fn help_does_not_change_recorded_values() {
    let mut f = reg(&["prog", "--k=7"]);
    f.get_i32("--k", "a k");
    let before = f.help();
    assert_eq!(f.get_i32("--k", "a k"), Some(7));
    assert_eq!(f.help(), before);
}
