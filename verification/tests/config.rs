use weecord::config::{
    GuildOptionChange,
    format_channel_list, guild_of_option, i32_to_string, normalize_channel_list,
    parse_channel_list, GuildConfigInner, InnerConfig, OptionChange,
};

#[test]
fn channel_lists_are_sorted_and_deduplicated() {
    assert_eq!(parse_channel_list("30,10,x,20,10"), vec![10, 20, 30]);
    assert_eq!(parse_channel_list(""), Vec::<u64>::new());
    assert_eq!(parse_channel_list("+5, 6,7"), vec![5, 7]);
    assert_eq!(parse_channel_list("18446744073709551616,1"), vec![1]);
    assert_eq!(format_channel_list(&vec![1, 22, 333]), "1,22,333");
    assert_eq!(format_channel_list(&vec![]), "");
}

#[test]
fn normalizing_twice_changes_nothing() {
    let (first, text) = normalize_channel_list("9,3,,3,abc,12");
    assert_eq!(first, vec![3, 9, 12]);
    assert_eq!(text, "3,9,12");
    let (second, text2) = normalize_channel_list(&text);
    assert_eq!(second, first);
    assert_eq!(text2, text);
}

#[test]
fn option_changes() {
    let mut c = InnerConfig::default();
    assert_eq!(c.max_buffer_messages, 4096);
    assert_eq!(c.look.typing_list_max, 5);
    assert_eq!(c.look.readonly_value, "🔒");
    assert_eq!(c.apply(OptionChange::Token("abc".to_string())), None);
    assert_eq!(c.token.as_deref(), Some("abc"));
    assert_eq!(c.apply(OptionChange::AutojoinPrivate("5,1,5".to_string())), Some("1,5".to_string()));
    assert_eq!(c.autojoin_private, vec![1, 5]);
    assert_eq!(c.apply(OptionChange::SendTyping(true)), None);
    assert!(c.send_typing);
    assert_eq!(c.apply(OptionChange::TypingListStyle(1)), None);
    assert_eq!(c.look.typing_list_style, 1);
    assert_eq!(c.apply(OptionChange::MaxBufferMessages(-3)), None);
    assert_eq!(c.max_buffer_messages, -3);
}

#[test]
fn persisted_values_in_order() {
    let mut c = InnerConfig::default();
    c.autojoin_private = vec![4, 8];
    c.max_buffer_messages = -12;
    let v = c.persisted_values();
    assert_eq!(v.len(), 11);
    assert_eq!(v[0], ("general".to_string(), "token".to_string(), "".to_string()));
    assert_eq!(v[2], ("general".to_string(), "autojoin_private".to_string(), "4,8".to_string()));
    assert_eq!(v[3], ("general".to_string(), "max_buffer_messages".to_string(), "-12".to_string()));
    assert_eq!(v[4], ("general".to_string(), "send_typing".to_string(), "false".to_string()));
    assert_eq!(v[10], ("look".to_string(), "image_max_height".to_string(), "15".to_string()));
}

#[test]
fn numbers_and_guild_options() {
    assert_eq!(i32_to_string(i32::MIN), "-2147483648");
    assert_eq!(i32_to_string(0), "0");
    assert_eq!(guild_of_option("1234.autojoin"), Some(1234));
    assert_eq!(guild_of_option("1234"), Some(1234));
    assert_eq!(guild_of_option("abc.autojoin"), None);
    assert_eq!(guild_of_option(".x"), None);
    let g = GuildConfigInner::new();
    assert!(!g.autoconnect && g.autojoin.is_empty() && g.watched.is_empty());
}

#[test]
fn guild_options() {
    let mut g = GuildConfigInner::new();
    assert_eq!(g.apply(GuildOptionChange::Autoconnect(true)), None);
    assert!(g.autoconnect);
    assert_eq!(g.apply(GuildOptionChange::Autojoin("7,3".to_string())), Some("3,7".to_string()));
    assert_eq!(g.apply(GuildOptionChange::Watched("x".to_string())), Some("".to_string()));
    assert_eq!(g.autojoin, vec![3, 7]);
    let v = g.persisted_values(42);
    assert_eq!(
        v,
        vec![
            ("42.autojoin".to_string(), "3,7".to_string()),
            ("42.watched".to_string(), "".to_string()),
            ("42.autoconnect".to_string(), "true".to_string()),
        ]
    );
}
