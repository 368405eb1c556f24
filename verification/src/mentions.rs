//! Turning Discord mentions in a message into readable text.
use crate::directory::{
    color_name, colorize_discord_member, member_in, member_text, name_in, best_colored,
    known_roles, role_in, user_in, Directory, Named,
};
use crate::style::ColorTable;
use crate::styled_laws::{law_plain_text_builds_to_itself, law_styled_text_keeps_styles};
use crate::styled_string::{balanced, built, text_ops, OpView, StyledString};
use crate::text::{byte_len, copy_string, cut, cut_bytes, push_str, replace_all, replace_str};
use crate::utils::{colorize_string, colorize_weechat_nick, colorized, decimal, u64_to_string};
use twilight_mention::parse::{MentionType, ParseMention};
use vstd::prelude::*;

verus! {

/// What a mention points at.
#[derive(Clone, Copy, Debug, PartialEq, Eq, Structural)]
pub enum MentionKind {
    Channel,
    Emoji,
    Role,
    User,
    Timestamp,
    Other,
}

/// A mention found in a text: what it points at, the id (or the time of a
/// timestamp), and the byte offsets of its `<` and `>`.
#[derive(Clone, Copy, Debug)]
pub struct FoundMention {
    pub kind: MentionKind,
    pub id: u64,
    pub start: usize,
    pub end: usize,
}

/// The mentions that `twilight_mention` finds in a text, in order.
pub uninterp spec fn mentions_in(s: Seq<char>) -> Seq<FoundMention>;

/// `MentionType::iter`: the mentions in `input`, each with the byte offsets
/// of its first and last character. Both offsets lie in the text, the
/// first before the last.
#[verifier::external_body]
fn find_mentions(input: &str) -> (r: Vec<FoundMention>)
    ensures
        r@ == mentions_in(input@),
        forall|i: int| 0 <= i < r@.len() ==> (#[trigger] r@[i]).start < r@[i].end < byte_len(input@),
{
    MentionType::iter(input).map(|(m, start, end)| {
        let (kind, id) = match m {
            MentionType::Channel(id) => (MentionKind::Channel, id.0),
            MentionType::Emoji(id) => (MentionKind::Emoji, id.0),
            MentionType::Role(id) => (MentionKind::Role, id.0),
            MentionType::User(id) => (MentionKind::User, id.0),
            MentionType::Timestamp(t) => (MentionKind::Timestamp, t.unix()),
            _ => (MentionKind::Other, 0),
        };
        FoundMention { kind, id, start, end }
    }).collect()
}

/// The name of a channel: a guild channel, else a private one, else a group.
pub open spec fn channel_name_in(dir: &Directory, id: u64) -> Option<Seq<char>> {
    match name_in(dir.guild_channels@, id) {
        Some(n) => Some(n),
        None => match name_in(dir.private_channels@, id) {
            Some(n) => Some(n),
            None => name_in(dir.groups@, id),
        },
    }
}

/// What a mention is replaced by, and whether it names a user nobody knows.
pub open spec fn reply_of(
    t: Seq<(Seq<char>, Seq<char>)>,
    dir: &Directory,
    m: FoundMention,
    guild: Option<u64>,
    show_unknown_ids: bool,
) -> (Seq<char>, bool) {
    match m.kind {
        MentionKind::Role => match role_in(dir.roles@, m.id) {
            Some(r) => (built(t, colorized("@"@ + r.name, color_name(r.color))), false),
            None => ("@unknown-role"@, false),
        },
        MentionKind::Channel => match channel_name_in(dir, m.id) {
            Some(n) => ("#"@ + n, false),
            None => ("#unknown-channel"@, false),
        },
        MentionKind::User => {
            let known = match guild {
                Some(g) => match member_in(dir.members@, g, m.id) {
                    Some(mem) => Some(
                        built(
                            t,
                            member_text(
                                match best_colored(known_roles(dir.roles@, mem.roles)) {
                                    Some(r) => Some(r.color),
                                    None => None,
                                },
                                mem,
                                true,
                            ),
                        ),
                    ),
                    None => None,
                },
                None => match user_in(dir.users@, m.id) {
                    Some((name, color)) => Some(
                        "@"@ + built(
                            t,
                            colorized(
                                name,
                                match color {
                                    Some(c) => c,
                                    None => "reset"@,
                                },
                            ),
                        ),
                    ),
                    None => None,
                },
            };
            match known {
                Some(text) => (text, false),
                None => (
                    if show_unknown_ids {
                        "@"@ + decimal(m.id as nat)
                    } else {
                        "@unknown-user"@
                    },
                    true,
                ),
            }
        },
        _ => match name_in(dir.emojis@, m.id) {
            Some(n) => (":"@ + n + ":"@, false),
            None => (":unknown-emoji:"@, false),
        },
    }
}

/// The text after replacing, one after the other, every occurrence of each
/// mention's source text by its reply.
pub open spec fn cleaned_text(
    t: Seq<(Seq<char>, Seq<char>)>,
    dir: &Directory,
    input: Seq<char>,
    found: Seq<FoundMention>,
    guild: Option<u64>,
    show_unknown_ids: bool,
) -> Seq<char>
    decreases found.len(),
{
    if found.len() == 0 {
        input
    } else {
        let m = found.last();
        replace_all(
            cleaned_text(t, dir, input, found.drop_last(), guild, show_unknown_ids),
            cut(input, m.start as int, m.end + 1),
            reply_of(t, dir, m, guild, show_unknown_ids).0,
        )
    }
}

/// The ids of the users that the mentions name but nobody knows, in order.
pub open spec fn unknown_users(
    dir: &Directory,
    found: Seq<FoundMention>,
    guild: Option<u64>,
) -> Seq<u64>
    decreases found.len(),
{
    if found.len() == 0 {
        seq![]
    } else {
        let m = found.last();
        let rest = unknown_users(dir, found.drop_last(), guild);
        if reply_of(Seq::empty(), dir, m, guild, false).1 {
            rest.push(m.id)
        } else {
            rest
        }
    }
}

/// Whether the reply to a mention says that its user is unknown does not
/// depend on the colour table or on how unknown users are shown.
proof fn lemma_unknown_independent(
    t: Seq<(Seq<char>, Seq<char>)>,
    dir: &Directory,
    m: FoundMention,
    guild: Option<u64>,
    show: bool,
)
    ensures
        reply_of(t, dir, m, guild, show).1 == reply_of(Seq::empty(), dir, m, guild, false).1,
{
}

fn channel_name(v: &Vec<Named>, id: u64) -> (r: Option<String>)
    ensures
        match name_in(v@, id) {
            Some(n) => r is Some && r->Some_0@ == n,
            None => r is None,
        },
{
    let mut i: usize = 0;
    assert(v@.skip(0) =~= v@);
    while i < v.len()
        invariant
            i <= v@.len(),
            name_in(v@.skip(i as int), id) == name_in(v@, id),
        decreases v.len() - i,
    {
        assert(v@.skip(i as int)[0] == v@[i as int]);
        if v[i].id == id {
            return Some(copy_string(&v[i].name));
        }
        assert(v@.skip(i as int).drop_first() =~= v@.skip(i + 1));
        i += 1;
    }
    None
}

fn prefixed(prefix: &str, body: &str) -> (s: String)
    ensures
        s@ == prefix@ + body@,
{
    let mut s = String::from_str(prefix);
    push_str(&mut s, body);
    s
}

/// The reply to one mention.
pub fn reply(
    table: &ColorTable,
    dir: &Directory,
    m: FoundMention,
    guild: Option<u64>,
    show_unknown_ids: bool,
) -> (r: (String, bool))
    requires
        m.kind != MentionKind::Timestamp,
    ensures
        r.0@ == reply_of(table@, dir, m, guild, show_unknown_ids).0,
        r.1 == reply_of(table@, dir, m, guild, show_unknown_ids).1,
{
    match m.kind {
        MentionKind::Role => match dir.role(m.id) {
            Some(role) => {
                let text = prefixed("@", role.name.as_str());
                let code = crate::directory::color_code(crate::utils::Color::new(role.color));
                let styled = colorize_string(text.as_str(), code.as_str());
                proof {
                    lemma_colorized_balanced(text@, code@);
                }
                (styled.build_with(table), false)
            },
            None => (String::from_str("@unknown-role"), false),
        },
        MentionKind::Channel => {
            let found = match channel_name(&dir.guild_channels, m.id) {
                Some(n) => Some(n),
                None => match channel_name(&dir.private_channels, m.id) {
                    Some(n) => Some(n),
                    None => channel_name(&dir.groups, m.id),
                },
            };
            match found {
                Some(n) => (prefixed("#", n.as_str()), false),
                None => (String::from_str("#unknown-channel"), false),
            }
        },
        MentionKind::User => {
            let known: Option<String> = match guild {
                Some(g) => match dir.member(g, m.id) {
                    Some(mem) => {
                        let styled = colorize_discord_member(dir, mem, true);
                        proof {
                            lemma_member_text_balanced(styled@);
                        }
                        Some(styled.build_with(table))
                    },
                    None => None,
                },
                None => match dir.user(m.id) {
                    Some((name, color)) => {
                        let styled = match &color {
                            Some(c) => colorize_weechat_nick(name.as_str(), Some(c.as_str())),
                            None => colorize_weechat_nick(name.as_str(), None),
                        };
                        proof {
                            lemma_colorized_balanced(
                                name@,
                                match color {
                                    Some(c) => c@,
                                    None => "reset"@,
                                },
                            );
                        }
                        let body = styled.build_with(table);
                        Some(prefixed("@", body.as_str()))
                    },
                    None => None,
                },
            };
            match known {
                Some(text) => (text, false),
                None => {
                    if show_unknown_ids {
                        (prefixed("@", u64_to_string(m.id).as_str()), true)
                    } else {
                        (String::from_str("@unknown-user"), true)
                    }
                },
            }
        },
        _ => match channel_name(&dir.emojis, m.id) {
            Some(n) => {
                let mut s = prefixed(":", n.as_str());
                push_str(&mut s, ":");
                (s, false)
            },
            None => (String::from_str(":unknown-emoji:"), false),
        },
    }
}

/// Colored text is balanced.
pub proof fn lemma_colorized_balanced(text: Seq<char>, color: Seq<char>)
    ensures
        balanced(colorized(text, color)),
{
    law_plain_text_builds_to_itself(Seq::empty(), text);
    let x = crate::style::StyleView::Color(color);
    law_styled_text_keeps_styles(Seq::<OpView>::empty(), x, text);
    assert(balanced(Seq::<OpView>::empty()));
    assert(Seq::<OpView>::empty() + seq![OpView::Push(x)] =~= seq![OpView::Push(x)]);
}

/// A member's text is balanced.
pub proof fn lemma_member_text_balanced(ops: Seq<OpView>)
    requires
        exists|c: Option<u32>, m: crate::directory::MemberInfoView, at: bool|
            ops == #[trigger] member_text(c, m, at),
    ensures
        balanced(ops),
{
    let (c, m, at) = choose|c: Option<u32>, m: crate::directory::MemberInfoView, at: bool|
        ops == #[trigger] member_text(c, m, at);
    let prefix = if at {
        "@"@
    } else {
        seq![]
    };
    match c {
        Some(col) => {
            let nick = match m.nick {
                Some(n) => n,
                None => m.user_name,
            };
            lemma_colorized_balanced(prefix + nick, color_name(col));
        },
        None => {
            law_plain_text_builds_to_itself(Seq::empty(), prefix + m.user_name);
        },
    }
}

/// Replaces the mentions `found` of `input` by readable text: roles and
/// members in their colours, channels and emojis by name; the ids of
/// unknown users are added to `unknown_members`.
pub fn clean_found(
    table: &ColorTable,
    dir: &Directory,
    input: &str,
    found: &Vec<FoundMention>,
    guild_id: Option<u64>,
    show_unknown_ids: bool,
    unknown_members: &mut Vec<u64>,
) -> (out: String)
    requires
        forall|i: int| 0 <= i < found@.len() ==> (#[trigger] found@[i]).kind != MentionKind::Timestamp,
        forall|i: int| 0 <= i < found@.len() ==> (#[trigger] found@[i]).end < byte_len(input@),
        byte_len(input@) <= usize::MAX,
    ensures
        out@ == cleaned_text(table@, dir, input@, found@, guild_id, show_unknown_ids),
        final(unknown_members)@ == old(unknown_members)@ + unknown_users(dir, found@, guild_id),
{
    let mut out = String::from_str(input);
    let ghost start = unknown_members@;
    let mut i: usize = 0;
    assert(found@.take(0) =~= Seq::<FoundMention>::empty());
    assert(start + Seq::<u64>::empty() =~= start);
    while i < found.len()
        invariant
            i <= found@.len(),
            forall|k: int| 0 <= k < found@.len() ==> (#[trigger] found@[k]).kind != MentionKind::Timestamp,
            forall|k: int| 0 <= k < found@.len() ==> (#[trigger] found@[k]).end < byte_len(input@),
            byte_len(input@) <= usize::MAX,
            out@ == cleaned_text(table@, dir, input@, found@.take(i as int), guild_id, show_unknown_ids),
            unknown_members@ == start + unknown_users(dir, found@.take(i as int), guild_id),
        decreases found.len() - i,
    {
        let m = found[i];
        assert(found@.take(i + 1).drop_last() =~= found@.take(i as int));
        assert(found@.take(i + 1).last() == m);
        let source = cut_bytes(input, m.start, m.end + 1);
        let (text, unknown) = reply(table, dir, m, guild_id, show_unknown_ids);
        proof {
            lemma_unknown_independent(table@, dir, m, guild_id, show_unknown_ids);
        }
        if unknown {
            unknown_members.push(m.id);
        }
        assert(unknown_members@ =~= start + unknown_users(dir, found@.take(i + 1), guild_id));
        out = replace_str(out.as_str(), source.as_str(), text.as_str());
        i += 1;
    }
    assert(found@.take(found@.len() as int) =~= found@);
    out
}

/// Whether a list of mentions holds a timestamp.
pub open spec fn has_timestamp(found: Seq<FoundMention>) -> bool {
    exists|i: int| 0 <= i < found.len() && found[i].kind == MentionKind::Timestamp
}

/// Replaces the mentions of `input` by readable text; `None` where the text
/// mentions a timestamp, which has no readable form here.
pub fn clean_all(
    table: &ColorTable,
    dir: &Directory,
    input: &str,
    guild_id: Option<u64>,
    show_unknown_ids: bool,
    unknown_members: &mut Vec<u64>,
) -> (out: Option<String>)
    requires
        byte_len(input@) <= usize::MAX,
    ensures
        match out {
            Some(s) => !has_timestamp(mentions_in(input@)) && s@ == cleaned_text(
                table@,
                dir,
                input@,
                mentions_in(input@),
                guild_id,
                show_unknown_ids,
            ) && final(unknown_members)@ == old(unknown_members)@ + unknown_users(
                dir,
                mentions_in(input@),
                guild_id,
            ),
            None => has_timestamp(mentions_in(input@)) && final(unknown_members)@ == old(
                unknown_members,
            )@,
        },
{
    let found = find_mentions(input);
    let mut i: usize = 0;
    while i < found.len()
        invariant
            i <= found@.len(),
            found@ == mentions_in(input@),
            forall|k: int| 0 <= k < i ==> (#[trigger] found@[k]).kind != MentionKind::Timestamp,
        decreases found.len() - i,
    {
        if found[i].kind == MentionKind::Timestamp {
            return None;
        }
        i += 1;
    }
    Some(clean_found(table, dir, input, &found, guild_id, show_unknown_ids, unknown_members))
}

} // verus!
