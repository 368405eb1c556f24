use weecord::commands::{
    channel_completions, clean_token, discord_format, find_private_channel, guild_completions,
    parse_command, remove_autojoin, resolve_channel_and_guild, rewrite_me, search_channel_name,
    search_guild_name, not_connected_text, server_list_lines, server_outcome, ChannelChoice, GuildListing, ServerOp, CommandError, DebugCmd, DiscordCmd, FormatKind, GuildChoice,
};

fn words(line: &str) -> Vec<String> {
    line.split(' ').map(|s| s.to_string()).collect()
}

#[test]
fn parses_subcommands() {
    assert_eq!(parse_command(&words("/discord")), Ok(DiscordCmd::Nothing));
    assert_eq!(parse_command(&words("/discord server list")), Ok(DiscordCmd::ServerList));
    assert_eq!(
        parse_command(&words("/discord server add My_Guild")),
        Ok(DiscordCmd::ServerAdd("My_Guild".to_string()))
    );
    assert_eq!(
        parse_command(&words("/discord channel join guild general")),
        Ok(DiscordCmd::ChannelJoin { guild: "guild".to_string(), name: "general".to_string() })
    );
    assert_eq!(parse_command(&words("/discord query bob#0001")), Ok(DiscordCmd::Query("bob#0001".to_string())));
    assert_eq!(parse_command(&words("/discord token abc")), Ok(DiscordCmd::Token("abc".to_string())));
    assert_eq!(parse_command(&words("/discord pins")), Ok(DiscordCmd::Pins));
    assert_eq!(parse_command(&words("/discord more_history")), Ok(DiscordCmd::MoreHistory));
    assert_eq!(parse_command(&words("/discord debug members")), Ok(DiscordCmd::Debug(DebugCmd::Members)));
    assert_eq!(
        parse_command(&words("/discord shrug  why not")),
        Ok(DiscordCmd::Format { kind: FormatKind::Shrug, text: "why not".to_string() })
    );
}

#[test]
fn reports_bad_commands() {
    assert_eq!(
        parse_command(&words("/discord nope")),
        Err(CommandError::UnknownSubcommand("nope".to_string()))
    );
    assert_eq!(
        parse_command(&words("/discord server")),
        Err(CommandError::MissingSubcommand("server".to_string()))
    );
    assert_eq!(
        parse_command(&words("/discord server add")),
        Err(CommandError::MissingArgument("name".to_string()))
    );
    assert_eq!(
        parse_command(&words("/discord channel join g")),
        Err(CommandError::MissingArgument("name".to_string()))
    );
    assert_eq!(
        parse_command(&words("/discord channel join")),
        Err(CommandError::MissingArgument("guild_name".to_string()))
    );
    assert_eq!(
        parse_command(&words("/discord debug x")),
        Err(CommandError::UnknownSubcommand("x".to_string()))
    );
}

#[test]
fn message_shortcuts() {
    assert_eq!(discord_format(FormatKind::Me, "waves"), "_waves_");
    assert_eq!(discord_format(FormatKind::Tableflip, "no"), "no (╯°□°）╯︵ ┻━┻");
    assert_eq!(discord_format(FormatKind::Unflip, ""), " ┬─┬ ノ( ゜-゜ノ)");
    assert_eq!(discord_format(FormatKind::Shrug, "eh"), "eh ¯\\_(ツ)_/¯");
    assert_eq!(discord_format(FormatKind::Spoiler, "x"), "||x||");
    assert_eq!(rewrite_me("/me  dances"), Some("/discord me dances".to_string()));
    assert_eq!(rewrite_me("/me"), None);
    assert_eq!(clean_token("  \"tok\"  "), "tok");
}

fn names(v: &[&str]) -> Vec<String> {
    v.iter().map(|s| s.to_string()).collect()
}

fn choice(name: &str, text: bool) -> ChannelChoice {
    ChannelChoice { name: name.to_string(), text }
}

#[test]
fn guild_and_channel_lookup() {
    let guilds = names(&["Rust Lang", "Other's place"]);
    assert_eq!(search_guild_name(&guilds, "rust_lang"), Some(0));
    assert_eq!(search_guild_name(&guilds, "others_place"), Some(1));
    assert_eq!(search_guild_name(&guilds, "nowhere"), None);
    let chans = vec![choice("Voice", false), choice("general", true), choice("voice", true)];
    assert_eq!(search_channel_name(&chans, "voice"), Some(2));
    assert_eq!(search_channel_name(&chans, "General"), Some(1));
}

#[test]
fn completions() {
    let guilds = names(&["Rust Lang", "Other"]);
    assert_eq!(guild_completions("server list", &guilds), Vec::<String>::new());
    assert_eq!(guild_completions("server add", &guilds), names(&["rust_lang", "other"]));
    let chans = vec![
        vec![choice("General Chat", true), choice("Voice", false)],
        vec![choice("x", true)],
    ];
    assert_eq!(channel_completions("channel join", &guilds, &chans), None);
    assert_eq!(
        channel_completions("channel join rust_lang", &guilds, &chans),
        Some(names(&["general_chat"]))
    );
    assert_eq!(channel_completions("channel join nobody", &guilds, &chans), Some(vec![]));
}

#[test]
fn resolving_channel_commands() {
    let guilds = vec![
        GuildChoice { name: "Home".to_string(), added: true, channels: vec![choice("general", true)] },
        GuildChoice { name: "Away".to_string(), added: false, channels: vec![choice("general", true)] },
    ];
    assert_eq!(resolve_channel_and_guild(&guilds, "home", "general"), Ok((0, 0)));
    assert_eq!(
        resolve_channel_and_guild(&guilds, "elsewhere", "general"),
        Err("could not find server: \"elsewhere\"".to_string())
    );
    assert_eq!(
        resolve_channel_and_guild(&guilds, "home", "random"),
        Err("could not find channel: \"random\"".to_string())
    );
    assert_eq!(
        resolve_channel_and_guild(&guilds, "away", "general"),
        Err("discord: could not find server \"Away\" in config".to_string())
    );
}

#[test]
fn private_channel_queries() {
    let channels = vec![names(&["ann#0001"]), names(&["bob smith#0002", "cy#0003"])];
    assert_eq!(find_private_channel(&channels, "ann#0001"), Some(0));
    assert_eq!(find_private_channel(&channels, "bob_smith#0002,cy#0003"), Some(1));
    assert_eq!(find_private_channel(&channels, "bob"), None);
}

#[test]
fn autojoin_removal() {
    let mut list = vec![3, 5, 3];
    assert!(remove_autojoin(&mut list, 3));
    assert_eq!(list, vec![5, 3]);
    assert!(!remove_autojoin(&mut list, 9));
    assert_eq!(list, vec![5, 3]);
}

#[test]
fn server_command_outcomes() {
    assert_eq!(server_outcome(ServerOp::Add, "x", None), ("discord: could not find guild: x".to_string(), false));
    assert_eq!(
        server_outcome(ServerOp::Add, "x", Some(("X", false))),
        ("discord: added \"X\"".to_string(), true)
    );
    assert_eq!(
        server_outcome(ServerOp::Add, "x", Some(("X", true))),
        ("discord: \"X\" has already been added".to_string(), false)
    );
    assert_eq!(
        server_outcome(ServerOp::Remove, "x", Some(("X", true))),
        ("discord: removed server \"X\"".to_string(), true)
    );
    assert_eq!(
        server_outcome(ServerOp::Noautoconnect, "x", None),
        ("discord: could not find server: \"x\"".to_string(), false)
    );
    assert_eq!(
        server_outcome(ServerOp::Autoconnect, "x", Some(("X", false))),
        ("discord: server \"X\" not in config".to_string(), false)
    );
    assert_eq!(not_connected_text(ServerOp::Remove), "discord: must be connected to remove servers");
}

#[test]
fn server_listing() {
    let t = weecord::style::ColorTable::identity();
    let guilds = vec![
        GuildListing {
            id: 5,
            name: Some("Home".to_string()),
            autojoin: vec![(1, Some("general".to_string())), (2, None)],
            watched: vec![],
        },
        GuildListing { id: 6, name: None, autojoin: vec![], watched: vec![(3, None)] },
    ];
    assert_eq!(
        server_list_lines(&t, &guilds),
        names(&[
            "discord: servers:",
            "chat_serverHome",
            " Autojoin channels:",
            "  #general",
            "  #ChannelId(2)",
            " Watched channels:",
            "GuildId(6)",
            " Autojoin channels:",
            " Watched channels:",
            "  #ChannelId(3)",
        ])
    );
}
