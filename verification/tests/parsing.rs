use weecord::parsing::{Emoji, LineEdit, Reaction};

fn sub(input: &str) -> Option<(usize, String, String, Option<String>)> {
    match LineEdit::parse(input) {
        Some(LineEdit::Sub {
            line,
            old,
            new,
            options,
        }) => Some((line, old.to_string(), new.to_string(), options.map(String::from))),
        _ => None,
    }
}

#[test]
fn edit_substitution() {
    assert_eq!(sub("s/foo/bar/"), Some((1, "foo".into(), "bar".into(), None)));
    assert_eq!(sub("s/foo/bar"), Some((1, "foo".into(), "bar".into(), None)));
    assert_eq!(
        sub("3s/a b/c/g"),
        Some((3, "a b".into(), "c".into(), Some("g".into())))
    );
}

#[test]
fn edit_escaped_slash() {
    assert_eq!(
        sub(r"s/a\/b/c/"),
        Some((1, r"a\/b".into(), "c".into(), None))
    );
}

#[test]
fn edit_delete() {
    assert!(matches!(LineEdit::parse("s//"), Some(LineEdit::Delete { line: 1 })));
    assert!(matches!(LineEdit::parse("2s//"), Some(LineEdit::Delete { line: 2 })));
}

#[test]
fn edit_rejects() {
    assert!(LineEdit::parse("hello").is_none());
    assert!(LineEdit::parse("s/only").is_none());
    assert!(LineEdit::parse("12s/a/b/").is_none());
    assert!(LineEdit::parse("s/a/b\\").is_none());
}

#[test]
fn reaction_unicode() {
    let r = Reaction::parse("+👍").unwrap();
    assert!(r.add);
    assert_eq!(r.line, 1);
    assert!(matches!(r.emoji, Emoji::Unicode("👍")));
}

#[test]
fn reaction_shortcode() {
    let r = Reaction::parse("2-:thumbsup:").unwrap();
    assert!(!r.add);
    assert_eq!(r.line, 2);
    assert!(matches!(r.emoji, Emoji::Shortcode("thumbsup")));
}

#[test]
fn reaction_custom() {
    let r = Reaction::parse("+<:pepe:123456>").unwrap();
    assert!(matches!(r.emoji, Emoji::Custom("<:pepe:123456>", 123456)));
    let r = Reaction::parse("+<:a:1>:b:2>").unwrap();
    assert!(matches!(r.emoji, Emoji::Custom("<:a:1>:b:2>", 2)));
}

#[test]
fn reaction_custom_overflow_is_unicode() {
    let r = Reaction::parse("+<:x:99999999999999999999>").unwrap();
    assert!(matches!(r.emoji, Emoji::Unicode("<:x:99999999999999999999>")));
}

#[test]
fn reaction_rejects() {
    assert!(Reaction::parse("hello").is_none());
    assert!(Reaction::parse("").is_none());
    assert!(Reaction::parse("1").is_none());
}

#[test]
fn lone_colon_reactions_are_recognised() {
    assert!(weecord::parsing::is_lone_colon_reaction("+:"));
    assert!(weecord::parsing::is_lone_colon_reaction("2-:"));
    assert!(!weecord::parsing::is_lone_colon_reaction("+:smile:"));
    assert!(!weecord::parsing::is_lone_colon_reaction("hello"));
    assert!(!weecord::parsing::is_lone_colon_reaction("+::"));
}
