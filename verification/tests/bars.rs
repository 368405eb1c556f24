use weecord::bar_items::{readonly_text, slowmode_text, typing_bar_text};
use weecord::directory::{current_user_nick, Directory, MemberInfo, RoleInfo, UserInfo};
use weecord::editor::{format_channel_line, format_guild_line};
use weecord::events::{on_buffer_switch, Place, SwitchAction};
use weecord::style::ColorTable;
use weecord::typing::{TypingEntry, TypingTracker};

#[test]
fn slowmode_and_readonly() {
    assert_eq!(slowmode_text(None), "");
    assert_eq!(slowmode_text(Some(0)), "");
    assert_eq!(slowmode_text(Some(30)), "30s");
    assert_eq!(slowmode_text(Some(120)), "2m");
    assert_eq!(readonly_text(Some(false)), "🔒");
    assert_eq!(readonly_text(Some(true)), "");
    assert_eq!(readonly_text(None), "");
}

#[test]
fn typing_bar_styles() {
    let mut t = TypingTracker::new();
    t.add_at(TypingEntry { channel_id: 1, guild_id: None, user: 2, user_name: "ann".to_string(), time: 5 }, 5);
    assert_eq!(typing_bar_text(&t, 1, None, 0, 5), "typing: ann");
    assert_eq!(typing_bar_text(&t, 1, None, 1, 5), "ann is typing");
}

#[test]
fn editor_lines() {
    let t = ColorTable::identity();
    assert_eq!(
        format_guild_line(&t, "Home", true),
        format!("{:22} reset[resetgreenautoconnectresetbold=-boldcyanyesresetreset]reset", "Home")
    );
    assert_eq!(
        format_channel_line(&t, "general", false, true),
        format!(
            "  {:20} reset[resetgreenautojoinresetbold=-boldyellowno resetreset] [resetgreenwatchedresetbold=-boldcyanyesresetreset]reset",
            "general"
        )
    );
    assert_eq!(
        format_guild_line(&t, "a name longer than the width", false),
        "a name longer than the width reset[resetgreenautoconnectresetbold=-boldyellowno resetreset]reset"
    );
}

#[test]
fn own_nick_in_a_guild() {
    let mut dir = Directory::new();
    dir.roles.push(RoleInfo { id: 1, name: "r".to_string(), color: 0xff0000, position: 1 });
    dir.members.push(MemberInfo { guild_id: 3, user_id: 4, user_name: "me".to_string(), nick: Some("Me!".to_string()), roles: vec![1] });
    let me = UserInfo { id: 4, name: "me".to_string(), discriminator: "0001".to_string(), nick_color: None };
    let t = ColorTable::identity();
    assert_eq!(current_user_nick(&t, &dir, 3, &me), "196Me!reset");
    assert_eq!(current_user_nick(&t, &dir, 5, &me), "me");
}

#[test]
fn buffer_switches() {
    let place = Place { guild_id: Some(1), channel_id: 2 };
    assert_eq!(on_buffer_switch(Some(1), None, true, true), SwitchAction::Ignore);
    assert_eq!(on_buffer_switch(Some(1), Some(2), false, true), SwitchAction::Ignore);
    assert_eq!(on_buffer_switch(Some(1), Some(2), true, true), SwitchAction::Refresh { place });
    assert_eq!(on_buffer_switch(Some(1), Some(2), true, false), SwitchAction::FirstVisit { place });
}
