use weecord::directory::{Directory, MemberInfo, Named, RoleInfo, UserInfo};
use weecord::mentions::clean_all;
use weecord::style::ColorTable;

fn clean(dir: &Directory, input: &str, guild: Option<u64>, show: bool, unknown: &mut Vec<u64>) -> String {
    clean_all(&ColorTable::identity(), dir, input, guild, show, unknown).expect("no timestamp in the text")
}

fn member(guild_id: u64, user_id: u64, name: &str, nick: Option<&str>, roles: Vec<u64>) -> MemberInfo {
    MemberInfo {
        guild_id,
        user_id,
        user_name: name.to_string(),
        nick: nick.map(|n| n.to_string()),
        roles,
    }
}

#[test]
fn content_roles() {
    let mut dir = Directory::new();
    dir.roles.push(RoleInfo { id: 1, name: "foo".to_string(), color: 0, position: 0 });

    assert_eq!(clean(&dir, "hello <@&1>!", None, false, &mut vec![]), "hello 16@fooreset!");
}

#[test]
fn content_channels() {
    let mut dir = Directory::new();
    dir.guild_channels.push(Named { id: 1, name: "channel-one".to_string() });

    assert_eq!(clean(&dir, "hello <#1>!", Some(0), false, &mut vec![]), "hello #channel-one!");
}

#[test]
fn content_users() {
    let mut dir = Directory::new();
    dir.members.push(member(0, 1, "random-user", None, vec![]));

    assert_eq!(clean(&dir, "hello <@1>!", Some(0), false, &mut Vec::new()), "hello @random-user!");
    assert_eq!(clean(&dir, "hello <@!1>!", Some(0), false, &mut Vec::new()), "hello @random-user!");
}

#[test]
fn content_emojis() {
    let mut dir = Directory::new();
    dir.emojis.push(Named { id: 1, name: "random-emoji".to_string() });
    dir.emojis.push(Named { id: 2, name: "emoji-two".to_string() });

    assert_eq!(
        clean(&dir, "hello <:random-emoji:1> <:emoji-two:2>", None, false, &mut vec![]),
        "hello :random-emoji: :emoji-two:"
    );
}

#[test]
fn content_evil_pony() {
    let mut dir = Directory::new();
    for (i, n) in ["one", "two", "three", "four", "five", "six"].iter().enumerate() {
        dir.emojis.push(Named { id: i as u64 + 1, name: n.to_string() });
    }
    let src = "<:one:1><:two:2><:one:1>\
        <:three:3><:four:4><:five:5>\
        <:one:1><:six:6><:one:1>";
    let target = ":one::two::one:\
        :three::four::five:\
        :one::six::one:";
    assert_eq!(clean(&dir, src, None, false, &mut vec![]), target);
}

#[test]
fn unknown_things_get_placeholders() {
    let dir = Directory::new();
    let mut unknown = Vec::new();
    assert_eq!(
        clean(&dir, "<@&3> <#4> <:x:5> <@6>", Some(0), false, &mut unknown),
        "@unknown-role #unknown-channel :unknown-emoji: @unknown-user"
    );
    assert_eq!(unknown, vec![6]);
}

#[test]
fn unknown_user_ids_can_be_shown() {
    let dir = Directory::new();
    let mut unknown = vec![1];
    assert_eq!(clean(&dir, "hi <@42>", Some(0), true, &mut unknown), "hi @42");
    assert_eq!(unknown, vec![1, 42]);
}

#[test]
fn member_in_role_colour_uses_nick() {
    let mut dir = Directory::new();
    dir.roles.push(RoleInfo { id: 7, name: "mods".to_string(), color: 0xff0000, position: 2 });
    dir.members.push(member(3, 9, "someone", Some("nick"), vec![7]));
    let out = clean(&dir, "<@9>", Some(3), false, &mut vec![]);
    assert_eq!(out, "196@nickreset");
}

#[test]
fn private_users_without_guild() {
    let mut dir = Directory::new();
    dir.users.push(UserInfo {
        id: 5,
        name: "pal".to_string(),
        discriminator: "0042".to_string(),
        nick_color: Some("lightgreen".to_string()),
    });
    assert_eq!(clean(&dir, "<@5>", None, false, &mut vec![]), "@lightgreenpalreset");
}

#[test]
fn timestamps_are_refused() {
    let dir = Directory::new();
    let mut unknown = vec![];
    assert_eq!(clean_all(&ColorTable::identity(), &dir, "at <t:1618953630>", None, false, &mut unknown), None);
    assert!(unknown.is_empty());
}
