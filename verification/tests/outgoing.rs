use weecord::directory::{MemberInfo, Named, RoleInfo};
use weecord::outgoing::{create_channels, create_emojis, create_mentions, create_roles, create_users, GuildLists};

fn named(id: u64, name: &str) -> Named {
    Named { id, name: name.to_string() }
}

#[test]
fn channel_names_become_mentions() {
    let chans = vec![named(11, "general"), named(12, "off-topic")];
    assert_eq!(create_channels(Some(&chans), "see #general and #off-topic"), "see <#11> and <#12>");
    assert_eq!(create_channels(Some(&chans), "see #nothing"), "see #nothing");
    assert_eq!(create_channels(None, "see #general"), "see #general");
}

#[test]
fn user_names_become_mentions() {
    let members = vec![
        MemberInfo { guild_id: 1, user_id: 7, user_name: "ann".to_string(), nick: Some("annie".to_string()), roles: vec![] },
        MemberInfo { guild_id: 1, user_id: 8, user_name: "bob".to_string(), nick: None, roles: vec![] },
    ];
    assert_eq!(create_users(Some(&members), "hi @bob#1234"), "hi <@8>");
    assert_eq!(create_users(Some(&members), "hi @annie#0001"), "hi <@7>");
    assert_eq!(create_users(Some(&members), "hi @bob"), "hi @bob");
}

#[test]
fn role_names_become_mentions() {
    let roles = vec![RoleInfo { id: 4, name: "mods".to_string(), color: 0, position: 1 }];
    assert_eq!(create_roles(Some(&roles), "ping @mods now"), "ping <@&4> now");
    assert_eq!(create_roles(Some(&roles), "ping @admins"), "ping @admins");
}

#[test]
fn emoji_names_become_mentions() {
    let emojis = vec![named(9, "party")];
    assert_eq!(create_emojis(Some(&emojis), "yay :party:"), "yay <:party:9>");
    assert_eq!(create_emojis(Some(&emojis), "yay \\:party:"), "yay \\:party:");
}

#[test]
fn all_mentions_at_once() {
    let lists = GuildLists {
        channels: Some(vec![named(11, "general")]),
        members: Some(vec![MemberInfo { guild_id: 1, user_id: 8, user_name: "bob".to_string(), nick: None, roles: vec![] }]),
        roles: Some(vec![]),
        emojis: Some(vec![named(9, "party")]),
    };
    assert_eq!(create_mentions(Some(&lists), "@bob#0001 #general :party:"), "<@8> <#11> <:party:9>");
    assert_eq!(create_mentions(None, "@bob#0001 #general"), "@bob#0001 #general");
}
