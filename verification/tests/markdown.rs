use weecord::directory::{Directory, MemberInfo, Named, RoleInfo};
use weecord::markdown::{discord_to_weechat, Context, MdNode};
use weecord::style::ColorTable;

fn text(s: &str) -> MdNode {
    MdNode::Text(s.to_string())
}

fn render(dir: &Directory, guild_id: Option<u64>, nodes: Vec<MdNode>) -> String {
    let table = ColorTable::identity();
    let ctx = Context { table: &table, dir, guild_id, show_unknown_ids: false };
    discord_to_weechat(&ctx, &nodes, &mut Vec::new())
}

fn format(nodes: Vec<MdNode>) -> String {
    render(&Directory::new(), None, nodes)
}

#[test]
fn color_stack() {
    // ||foo ~~strikethrough~~ baz `code` spam||
    let nodes = vec![MdNode::Spoiler(vec![
        text("foo "),
        MdNode::Strikethrough(vec![text("strikethrough")]),
        text(" baz "),
        MdNode::InlineCode("code".to_string()),
        text(" spam"),
    ])];
    assert_eq!(
        format(nodes),
        "italic||foo |red~~strikethrough~~resetcolor baz |*8`code`-boldresetcolor spam||-italic"
    );
}

#[test]
fn smoke_test() {
    // **_Hi___ there__**
    assert_eq!(
        format(vec![MdNode::Bold(vec![MdNode::Italic(vec![text("Hi__")]), text(" there__")])]),
        "bold**italic_Hi___-italic there__**-bold"
    );
    // A _b*c_d*e_
    assert_eq!(
        format(vec![text("A _b"), MdNode::Italic(vec![text("c_d")]), text("e_")]),
        "A _bitalic_c_d_-italice_"
    );
    // __f_*o*_o__
    assert_eq!(
        format(vec![MdNode::Underline(vec![text("f_"), MdNode::Italic(vec![text("o")]), text("_o")])]),
        "underline__f_italic_o_-italic_o__-underline"
    )
}

#[test]
fn nested_colours_restore_the_outer_one() {
    let nodes = vec![MdNode::Strikethrough(vec![text("a"), MdNode::InlineCode("b".to_string()), text("c")])];
    assert_eq!(format(nodes), "|red~~a|*8`b`-boldresetcolor|redc~~resetcolor");
}

#[test]
fn code_blocks_colour_each_line() {
    let nodes = vec![MdNode::Code("rs".to_string(), "let a;\nlet b;".to_string())];
    assert_eq!(format(nodes), "```rs\n|*8let a;resetcolor-bold\n|*8let b;resetcolor-bold\n```");
}

#[test]
fn block_quotes_are_folded() {
    assert_eq!(format(vec![MdNode::BlockQuote(vec![text("one\ntwo")])]), "▎one\n▎two\n");
    assert_eq!(format(vec![MdNode::SingleBlockQuote(vec![text("> hi")])]), "▎hi\n");
}

#[test]
fn format_roles() {
    let mut dir = Directory::new();
    dir.roles.push(RoleInfo { id: 1, name: "foo".to_string(), color: 0, position: 0 });
    assert_eq!(
        render(&dir, None, vec![text("hello "), MdNode::RoleMention(1), text("!")]),
        "hello 16@fooresetcolor!"
    );
}

#[test]
fn unknown_role_mention() {
    let dir = Directory::new();
    assert_eq!(
        render(&dir, None, vec![text("hello "), MdNode::RoleMention(1), text("!")]),
        "hello @unknown-role!"
    );
}

#[test]
fn format_channels() {
    let mut dir = Directory::new();
    dir.guild_channels.push(Named { id: 1, name: "channel-one".to_string() });
    assert_eq!(
        render(&dir, Some(0), vec![text("hello "), MdNode::ChannelMention(1), text("!")]),
        "hello #channel-one!"
    );
}

#[test]
fn format_users() {
    let mut dir = Directory::new();
    dir.members.push(MemberInfo {
        guild_id: 0,
        user_id: 1,
        user_name: "random-user".to_string(),
        nick: None,
        roles: vec![],
    });
    assert_eq!(
        render(&dir, Some(0), vec![text("hello "), MdNode::UserMention(1), text("!")]),
        "hello @random-user!"
    );
}

#[test]
fn format_emojis() {
    let mut dir = Directory::new();
    dir.emojis.push(Named { id: 1, name: "random-emoji".to_string() });
    dir.emojis.push(Named { id: 2, name: "emoji-two".to_string() });
    assert_eq!(
        render(
            &dir,
            None,
            vec![
                text("hello "),
                MdNode::Emoji("random-emoji".to_string(), 1),
                text(" "),
                MdNode::Emoji("emoji-two".to_string(), 2),
            ]
        ),
        "hello :random-emoji: :emoji-two:"
    );
}

#[test]
fn format_evil_pony() {
    let mut dir = Directory::new();
    let names = ["one", "two", "three", "four", "five", "six"];
    for (i, n) in names.iter().enumerate() {
        dir.emojis.push(Named { id: i as u64 + 1, name: n.to_string() });
    }
    let ids = [1, 2, 1, 3, 4, 5, 1, 6, 1];
    let nodes = ids.iter().map(|&i| MdNode::Emoji(names[i as usize - 1].to_string(), i)).collect();
    let target = ":one::two::one:\
        :three::four::five:\
        :one::six::one:";
    assert_eq!(render(&dir, None, nodes), target);
}

#[test]
fn unknown_mentioned_users_are_collected() {
    let dir = Directory::new();
    let table = ColorTable::identity();
    let ctx = Context { table: &table, dir: &dir, guild_id: Some(0), show_unknown_ids: true };
    let mut unknown = Vec::new();
    let out = discord_to_weechat(&ctx, &vec![MdNode::UserMention(77), MdNode::Bold(vec![MdNode::UserMention(78)])], &mut unknown);
    assert_eq!(out, "@77bold**@78**-bold");
    assert_eq!(unknown, vec![77, 78]);
}
