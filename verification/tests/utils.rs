use weecord::flag::Flag;
use weecord::utils::{
    clean_name, clean_name_with_case, colorize_string, colorize_weechat_nick, fold_lines,
    format_block_quote, humanize_duration, strip_leading_bracket, u64_to_string, Color,
};

#[test]
fn duration_fmt_second() {
    assert_eq!(humanize_duration(1), "1s");
    assert_eq!(humanize_duration(59), "59s");
    assert_eq!(humanize_duration(60), "1m");
}

#[test]
fn duration_fmt_minute() {
    assert_eq!(humanize_duration(1 * 60), "1m");
    assert_eq!(humanize_duration(59 * 60), "59m");
    assert_eq!(humanize_duration(60 * 60), "1h");
}

#[test]
fn duration_fmt_hour() {
    assert_eq!(humanize_duration(1 * 60 * 60), "1h");
    assert_eq!(humanize_duration(23 * 60 * 60), "23h");
    assert_eq!(humanize_duration(24 * 60 * 60), "1d");
}

#[test]
fn duration_fmt_day() {
    assert_eq!(humanize_duration(1 * 60 * 60 * 24), "1d");
    assert_eq!(humanize_duration(59 * 60 * 60 * 24), "59d");
    assert_eq!(humanize_duration(60 * 60 * 60 * 24), "60d");
}

#[test]
fn duration_edges() {
    assert_eq!(humanize_duration(0), "0s");
    assert_eq!(humanize_duration(3599), "59m");
    assert_eq!(humanize_duration(86399), "23h");
    assert_eq!(humanize_duration(u64::MAX), "213503982334601d");
}

#[test]
fn decimal_text() {
    assert_eq!(u64_to_string(0), "0");
    assert_eq!(u64_to_string(1024), "1024");
    assert_eq!(u64_to_string(u64::MAX), u64::MAX.to_string());
}

#[test]
fn color_channels() {
    let c = Color::new(0x12_34_56);
    assert_eq!(c.r(), 0x12);
    assert_eq!(c.g(), 0x34);
    assert_eq!(c.b(), 0x56);
}

#[test]
fn color_palette() {
    assert_eq!(Color::new(0).as_8bit(), 16);
    assert_eq!(Color::new(0xff_ff_ff).as_8bit(), 231);
    assert_eq!(Color::new(0xff_00_00).as_8bit(), 196);
    assert_eq!(Color::new(0x99_aa_b5).as_8bit(), 16 + 36 * 3 + 6 * 3 + 3);
}

#[test]
fn colorize_plain_when_empty() {
    assert_eq!(colorize_string("", "red").build(), "");
    assert_eq!(colorize_string("text", "").build(), "text");
    assert_eq!(colorize_string("text", "red").build(), "redtextreset");
}

#[test]
fn weechat_nick_colors() {
    assert_eq!(colorize_weechat_nick("bob", Some("cyan")).build(), "cyanbobreset");
    assert_eq!(colorize_weechat_nick("bob", None).build(), "resetbobreset");
}

#[test]
fn names_are_cleaned() {
    assert_eq!(clean_name_with_case("Bob's \"Cool\" Server.v2"), "Bobs_Cool_Serverv2");
    assert_eq!(clean_name("My Guild"), "my_guild");
    assert_eq!(clean_name("ÀB"), "àb");
}

#[test]
fn folded_lines() {
    let lines = vec!["a".to_string(), "b".to_string()];
    assert_eq!(fold_lines(&lines, ": "), ": a\n: b\n");
    assert_eq!(format_block_quote(&lines), "▎a\n▎b\n");
    assert_eq!(fold_lines(&Vec::new(), "x"), "");
}

#[test]
fn leading_bracket() {
    assert_eq!(strip_leading_bracket("> quoted"), "quoted");
    assert_eq!(strip_leading_bracket("x > y"), "y");
    assert_eq!(strip_leading_bracket("plain"), "plain");
}

#[test]
fn flag_is_raised_once() {
    let flag = Flag::new();
    assert!(!flag.triggered());
    flag.trigger();
    assert!(flag.triggered());
    flag.trigger();
    assert!(flag.triggered());
}

#[test]
fn cleaned_names_stay_clean() {
    let once = clean_name_with_case("Don't say \"hi\". Ok");
    assert_eq!(once, "Dont_say_hi_Ok");
    assert_eq!(clean_name_with_case(&once), once);
}
