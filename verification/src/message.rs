//! Discord messages as the plugin shows them: the author prefix, the body
//! with attachments, embeds and reactions, event messages, tags, and edits.
use crate::directory::{
    best_colored, colorize_discord_member, known_roles, member_in, member_text, Directory,
};
use crate::mentions::{clean_all, cleaned_text, has_timestamp, lemma_colorized_balanced, mentions_in, unknown_users};
use crate::style::{code_in, ColorTable};
use crate::styled_string::{built, split_newlines, split_on, StyledString};
use crate::text::{byte_len, copy_string, push_char, push_str};
use crate::utils::{colorize_string, colorized, decimal, fold_lines, folded, u64_to_string};
use crate::store::{parse_rfc3339, rfc3339_seconds};
use crate::typing::unix_now;
use vstd::prelude::*;
use vstd::string::StrSliceExecFns;

verus! {

/// The lines of a text (`str::lines`): split at `\n`, a `\r` before it
/// dropped, and no empty last line after a final `\n`.
pub open spec fn text_lines(s: Seq<char>) -> Seq<Seq<char>> {
    let pieces = split_on(s, '\n');
    if s.len() == 0 {
        seq![]
    } else if s.last() == '\n' {
        pieces.drop_last().map_values(|p: Seq<char>| strip_cr(p))
    } else {
        pieces.drop_last().map_values(|p: Seq<char>| strip_cr(p)).push(pieces.last())
    }
}

/// `p` without a final `\r`.
pub open spec fn strip_cr(p: Seq<char>) -> Seq<char> {
    if p.len() > 0 && p.last() == '\r' {
        p.drop_last()
    } else {
        p
    }
}

fn strip_cr_exec(p: &String) -> (r: String)
    ensures
        r@ == strip_cr(p@),
{
    let v = crate::text::to_chars(p.as_str());
    if v.len() > 0 && v[v.len() - 1] == '\r' {
        crate::text::string_of(&v, 0, v.len() - 1)
    } else {
        crate::text::string_of_all(&v)
    }
}

/// The lines of a text, as `str::lines` gives them.
pub fn lines_of_text(s: &str) -> (r: Vec<String>)
    ensures
        r@.map_values(|l: String| l@) == text_lines(s@),
{
    let pieces = split_newlines(s);
    let ghost pv = pieces@.map_values(|p: String| p@);
    proof {
        crate::styled_string::lemma_split_len(s@, '\n');
    }
    let n = pieces.len();
    let mut r: Vec<String> = Vec::new();
    let mut i: usize = 0;
    assert(r@.map_values(|l: String| l@) =~= pv.take(0).map_values(|p: Seq<char>| strip_cr(p)));
    while i + 1 < n
        invariant
            n == pieces@.len(),
            n >= 1,
            i + 1 <= n,
            pv == pieces@.map_values(|p: String| p@),
            r@.map_values(|l: String| l@) == pv.take(i as int).map_values(|p: Seq<char>| strip_cr(p)),
        decreases n - i,
    {
        let ghost before = r@.map_values(|l: String| l@);
        r.push(strip_cr_exec(&pieces[i]));
        assert(r@.map_values(|l: String| l@) =~= before.push(strip_cr(pv[i as int])));
        assert(pv.take(i + 1).map_values(|p: Seq<char>| strip_cr(p)) =~= pv.take(i as int).map_values(
            |p: Seq<char>| strip_cr(p),
        ).push(strip_cr(pv[i as int])));
        i += 1;
    }
    assert(pv.take(n - 1) =~= pv.drop_last());
    let total = s.unicode_len();
    if total == 0 {
        return Vec::new();
    }
    let last_char = s.get_char(total - 1);
    if last_char != '\n' {
        let ghost before = r@.map_values(|l: String| l@);
        r.push(copy_string(&pieces[n - 1]));
        assert(r@.map_values(|l: String| l@) =~= before.push(pv.last()));
    }
    r
}

/// The author of an embed.
pub struct EmbedAuthor {
    pub name: Option<String>,
    pub url: Option<String>,
}

/// The parts of an embed that are shown.
pub struct Embed {
    pub provider_name: Option<String>,
    pub provider_url: Option<String>,
    pub author: Option<EmbedAuthor>,
    pub title: Option<String>,
    pub description: Option<String>,
    pub fields: Vec<(String, String)>,
    pub footer: Option<String>,
}

/// The emoji of a reaction.
pub enum ReactionEmoji {
    Custom { id: u64, animated: bool, name: Option<String> },
    Unicode { name: String },
}

/// A reaction, how many gave it, and whether the user is among them.
pub struct ReactionCount {
    pub emoji: ReactionEmoji,
    pub count: u64,
    pub me: bool,
}

/// `s`, or nothing.
pub open spec fn opt_text(s: Option<String>) -> Seq<char> {
    match s {
        Some(t) => t@,
        None => seq![],
    }
}

/// ` (url)` where there is a url.
pub open spec fn url_part(url: Option<String>) -> Seq<char> {
    match url {
        Some(u) => " ("@ + u@ + ")"@,
        None => seq![],
    }
}

/// A text folded line by line behind `sep`, then a line break.
pub open spec fn block(text: Seq<char>, sep: Seq<char>) -> Seq<char> {
    folded(text_lines(text), sep) + "\n"@
}

/// The fields of an embed, each name followed by its folded value.
pub open spec fn fields_text(f: Seq<(String, String)>) -> Seq<char>
    decreases f.len(),
{
    if f.len() == 0 {
        seq![]
    } else {
        fields_text(f.drop_last()) + f.last().0@ + block(f.last().1@, ": "@)
    }
}

/// The provider line of an embed.
pub open spec fn provider_text(e: &Embed) -> Seq<char> {
    match &e.provider_name {
        Some(n) => "▎"@ + n@ + url_part(e.provider_url) + "\n"@,
        None => seq![],
    }
}

/// The author line of an embed, the name in bold.
pub open spec fn author_text(t: Seq<(Seq<char>, Seq<char>)>, e: &Embed) -> Seq<char> {
    match &e.author {
        Some(a) => "▎"@ + code_in(t, "bold"@) + opt_text(a.name) + code_in(t, "reset"@) + url_part(
            a.url,
        ) + "\n"@,
        None => seq![],
    }
}

/// A folded block for an optional text.
pub open spec fn opt_block(x: Option<String>, sep: Seq<char>) -> Seq<char> {
    match x {
        Some(v) => block(v@, sep),
        None => seq![],
    }
}

/// How one embed is shown.
pub open spec fn embed_text(t: Seq<(Seq<char>, Seq<char>)>, e: &Embed, leading_newline: bool) -> Seq<char> {
    (if leading_newline {
        "\n"@
    } else {
        seq![]
    }) + provider_text(e) + author_text(t, e) + opt_block(e.title, "▎"@) + opt_block(
        e.description,
        "▎"@,
    ) + fields_text(e.fields@) + opt_block(e.footer, "▎"@)
}

/// How the embeds of a message are shown.
pub open spec fn embeds_text(t: Seq<(Seq<char>, Seq<char>)>, es: Seq<Embed>, leading_newline: bool) -> Seq<char>
    decreases es.len(),
{
    if es.len() == 0 {
        seq![]
    } else {
        embeds_text(t, es.drop_last(), leading_newline) + embed_text(t, &es.last(), leading_newline)
    }
}

fn push_block(out: &mut String, text: &String, sep: &str)
    ensures
        final(out)@ == old(out)@ + block(text@, sep@),
{
    let lines = lines_of_text(text.as_str());
    let folded_text = fold_lines(&lines, sep);
    push_str(out, folded_text.as_str());
    push_char(out, '\n');
    proof {
        reveal_strlit("\n");
    }
}

fn push_url(out: &mut String, url: &Option<String>)
    ensures
        final(out)@ == old(out)@ + url_part(*url),
{
    match url {
        Some(u) => {
            push_str(out, " (");
            push_str(out, u.as_str());
            push_str(out, ")");
        },
        None => {},
    }
}

fn provider_line(e: &Embed) -> (s: String)
    ensures
        s@ == provider_text(e),
{
    let mut out = String::new();
    if let Some(name) = &e.provider_name {
        push_str(&mut out, "▎");
        push_str(&mut out, name.as_str());
        push_url(&mut out, &e.provider_url);
        push_str(&mut out, "\n");
        assert(out@ =~= provider_text(e));
    }
    out
}

fn author_line(table: &ColorTable, e: &Embed) -> (s: String)
    ensures
        s@ == author_text(table@, e),
{
    let mut out = String::new();
    if let Some(author) = &e.author {
        push_str(&mut out, "▎");
        push_str(&mut out, table.code("bold").as_str());
        match &author.name {
            Some(n) => push_str(&mut out, n.as_str()),
            None => {},
        }
        push_str(&mut out, table.code("reset").as_str());
        push_url(&mut out, &author.url);
        push_str(&mut out, "\n");
        assert(out@ =~= author_text(table@, e));
    }
    out
}

fn optional_block(x: &Option<String>, sep: &str) -> (s: String)
    ensures
        s@ == opt_block(*x, sep@),
{
    let mut out = String::new();
    if let Some(v) = x {
        push_block(&mut out, v, sep);
        assert(out@ =~= block(v@, sep@));
    }
    out
}

fn fields_lines(fields: &Vec<(String, String)>) -> (s: String)
    ensures
        s@ == fields_text(fields@),
{
    let mut out = String::new();
    let mut i: usize = 0;
    assert(fields@.take(0) =~= Seq::<(String, String)>::empty());
    while i < fields.len()
        invariant
            i <= fields@.len(),
            out@ == fields_text(fields@.take(i as int)),
        decreases fields.len() - i,
    {
        assert(fields@.take(i + 1).drop_last() =~= fields@.take(i as int));
        push_str(&mut out, fields[i].0.as_str());
        push_block(&mut out, &fields[i].1, ": ");
        i += 1;
    }
    assert(fields@.take(fields@.len() as int) =~= fields@);
    out
}

/// How one embed is shown.
pub fn format_embed(table: &ColorTable, e: &Embed, leading_newline: bool) -> (s: String)
    ensures
        s@ == embed_text(table@, e, leading_newline),
{
    let mut out = String::new();
    if leading_newline {
        push_str(&mut out, "\n");
    }
    let ghost lead = out@;
    let p = provider_line(e);
    let a = author_line(table, e);
    let t = optional_block(&e.title, "▎");
    let d = optional_block(&e.description, "▎");
    let f = fields_lines(&e.fields);
    let o = optional_block(&e.footer, "▎");
    push_str(&mut out, p.as_str());
    push_str(&mut out, a.as_str());
    push_str(&mut out, t.as_str());
    push_str(&mut out, d.as_str());
    push_str(&mut out, f.as_str());
    push_str(&mut out, o.as_str());
    assert(lead =~= (if leading_newline {
        "\n"@
    } else {
        seq![]
    }));
    assert(out@ =~= embed_text(table@, e, leading_newline));
    out
}

/// How the embeds of a message are shown.
pub fn format_embeds(table: &ColorTable, embeds: &Vec<Embed>, leading_newline: bool) -> (s: String)
    ensures
        s@ == embeds_text(table@, embeds@, leading_newline),
{
    let mut out = String::new();
    let mut i: usize = 0;
    assert(embeds@.take(0) =~= Seq::<Embed>::empty());
    while i < embeds.len()
        invariant
            i <= embeds@.len(),
            out@ == embeds_text(table@, embeds@.take(i as int), leading_newline),
        decreases embeds.len() - i,
    {
        assert(embeds@.take(i + 1).drop_last() =~= embeds@.take(i as int));
        assert(embeds@.take(i + 1).last() == embeds@[i as int]);
        let one = format_embed(table, &embeds[i], leading_newline);
        push_str(&mut out, one.as_str());
        i += 1;
    }
    assert(embeds@.take(embeds@.len() as int) =~= embeds@);
    out
}

/// The shown form of one reaction, where it has one.
pub open spec fn reaction_item(r: &ReactionCount) -> Option<Seq<char>> {
    let e = match &r.emoji {
        ReactionEmoji::Custom { name, .. } => match name {
            Some(n) => Some(":"@ + n@ + ":"@),
            None => None,
        },
        ReactionEmoji::Unicode { name } => Some(name@),
    };
    match e {
        Some(x) => Some("["@ + x + " "@ + decimal(r.count as nat) + "]"@),
        None => None,
    }
}

/// The shown reactions, separated by spaces.
pub open spec fn reaction_items(rs: Seq<ReactionCount>) -> Seq<char>
    decreases rs.len(),
{
    if rs.len() == 0 {
        seq![]
    } else {
        let rest = reaction_items(rs.drop_last());
        match reaction_item(&rs.last()) {
            Some(x) => if rest.len() == 0 && !has_item(rs.drop_last()) {
                x
            } else {
                rest + " "@ + x
            },
            None => rest,
        }
    }
}

/// Whether some reaction has a shown form.
pub open spec fn has_item(rs: Seq<ReactionCount>) -> bool {
    exists|i: int| 0 <= i < rs.len() && reaction_item(&rs[i]) is Some
}

/// How the reactions of a message are shown, in grey after the text.
pub open spec fn reactions_text(t: Seq<(Seq<char>, Seq<char>)>, rs: Seq<ReactionCount>) -> Seq<char> {
    if rs.len() == 0 {
        seq![]
    } else {
        " "@ + code_in(t, "8"@) + reaction_items(rs) + code_in(t, "-8"@)
    }
}

/// How the reactions of a message are shown.
pub fn format_reactions(table: &ColorTable, reactions: &Vec<ReactionCount>) -> (s: String)
    ensures
        s@ == reactions_text(table@, reactions@),
{
    if reactions.len() == 0 {
        return String::new();
    }
    let mut items = String::new();
    let mut any = false;
    let mut i: usize = 0;
    assert(reactions@.take(0) =~= Seq::<ReactionCount>::empty());
    while i < reactions.len()
        invariant
            i <= reactions@.len(),
            items@ == reaction_items(reactions@.take(i as int)),
            any == has_item(reactions@.take(i as int)),
        decreases reactions.len() - i,
    {
        let ghost pre = reactions@.take(i as int);
        assert(reactions@.take(i + 1).drop_last() =~= pre);
        assert(reactions@.take(i + 1).last() == reactions@[i as int]);
        let r = &reactions[i];
        let item: Option<String> = match &r.emoji {
            ReactionEmoji::Custom { name, .. } => match name {
                Some(n) => {
                    let mut x = String::from_str(":");
                    push_str(&mut x, n.as_str());
                    push_str(&mut x, ":");
                    Some(x)
                },
                None => None,
            },
            ReactionEmoji::Unicode { name } => Some(copy_string(name)),
        };
        match item {
            Some(e) => {
                let mut x = String::from_str("[");
                push_str(&mut x, e.as_str());
                push_str(&mut x, " ");
                push_str(&mut x, u64_to_string(r.count).as_str());
                push_str(&mut x, "]");
                if any {
                    push_str(&mut items, " ");
                    push_str(&mut items, x.as_str());
                } else {
                    assert(items@ =~= Seq::<char>::empty()) by {
                        lemma_no_item_empty(pre);
                    }
                    items = x;
                }
                proof {
                    let now = reactions@.take(i + 1);
                    assert(now[i as int] == reactions@[i as int]);
                    assert(has_item(now));
                }
                any = true;
            },
            None => {
                proof {
                    let now = reactions@.take(i + 1);
                    if has_item(now) {
                        let k = choose|k: int| 0 <= k < now.len() && reaction_item(&now[k]) is Some;
                        assert(k < i);
                        assert(now[k] == pre[k]);
                    }
                    if has_item(pre) {
                        let k = choose|k: int| 0 <= k < pre.len() && reaction_item(&pre[k]) is Some;
                        assert(now[k] == pre[k]);
                    }
                }
            },
        }
        proof {
            let now = reactions@.take(i + 1);
            if any && has_item(pre) {
                let k = choose|k: int| 0 <= k < pre.len() && reaction_item(&pre[k]) is Some;
                assert(now[k] == pre[k]);
            }
        }
        i += 1;
    }
    assert(reactions@.take(reactions@.len() as int) =~= reactions@);
    let mut out = String::from_str(" ");
    push_str(&mut out, table.code("8").as_str());
    push_str(&mut out, items.as_str());
    push_str(&mut out, table.code("-8").as_str());
    out
}

/// Without a shown reaction, the shown list is empty.
proof fn lemma_no_item_empty(rs: Seq<ReactionCount>)
    requires
        !has_item(rs),
    ensures
        reaction_items(rs) == Seq::<char>::empty(),
    decreases rs.len(),
{
    if rs.len() > 0 {
        assert(rs[rs.len() - 1] == rs.last());
        assert(!has_item(rs.drop_last())) by {
            if has_item(rs.drop_last()) {
                let k = choose|k: int| 0 <= k < rs.drop_last().len() && reaction_item(&rs.drop_last()[k]) is Some;
                assert(rs[k] == rs.drop_last()[k]);
            }
        }
        lemma_no_item_empty(rs.drop_last());
    }
}

/// The kind of a Discord message.
#[derive(Clone, Copy, Debug, PartialEq, Eq, Structural)]
pub enum MessageKind {
    Regular,
    RecipientAdd,
    RecipientRemove,
    Call,
    ChannelNameChange,
    ChannelIconChange,
    ChannelMessagePinned,
    GuildMemberJoin,
    UserPremiumSub,
    UserPremiumSubTier1,
    UserPremiumSubTier2,
    UserPremiumSubTier3,
    ChannelFollowAdd,
    GuildDiscoveryDisqualified,
    GuildDiscoveryRequalified,
    GuildDiscoveryGracePeriodInitialWarning,
    GuildDiscoveryGracePeriodFinalWarning,
    Reply,
    ApplicationCommand,
    GuildInviteReminder,
}

/// The weechat prefix an event message is printed with.
#[derive(Clone, Copy, Debug, PartialEq, Eq, Structural)]
pub enum EventPrefix {
    Join,
    Quit,
    Network,
}

/// `s` in bold.
pub open spec fn bold_text(t: Seq<(Seq<char>, Seq<char>)>, s: Seq<char>) -> Seq<char> {
    code_in(t, "bold"@) + s + code_in(t, "-bold"@)
}

fn bold(table: &ColorTable, s: &str) -> (r: String)
    ensures
        r@ == bold_text(table@, s@),
{
    let mut r = table.code("bold");
    push_str(&mut r, s);
    push_str(&mut r, table.code("-bold").as_str());
    r
}

/// The line shown for a message that reports an event rather than carrying
/// text; `None` for the kinds shown as text.
pub open spec fn event_text(
    t: Seq<(Seq<char>, Seq<char>)>,
    kind: MessageKind,
    author: Seq<char>,
    content: Seq<char>,
) -> Option<(EventPrefix, Seq<char>)> {
    match kind {
        MessageKind::RecipientAdd | MessageKind::GuildMemberJoin => Some(
            (EventPrefix::Join, bold_text(t, author) + " joined the group."@),
        ),
        MessageKind::RecipientRemove => Some(
            (EventPrefix::Quit, bold_text(t, author) + " left the group."@),
        ),
        MessageKind::ChannelNameChange => Some(
            (
                EventPrefix::Network,
                bold_text(t, author) + " changed the channel name to "@ + bold_text(t, content)
                    + "."@,
            ),
        ),
        MessageKind::Call => Some((EventPrefix::Network, bold_text(t, author) + " started a call."@)),
        MessageKind::ChannelIconChange => Some(
            (EventPrefix::Network, bold_text(t, author) + " changed the channel icon."@),
        ),
        MessageKind::ChannelMessagePinned => Some(
            (EventPrefix::Network, bold_text(t, author) + " pinned a message to this channel"@),
        ),
        MessageKind::UserPremiumSub => Some(
            (EventPrefix::Network, bold_text(t, author) + " boosted this channel with nitro"@),
        ),
        MessageKind::UserPremiumSubTier1 => Some(
            (EventPrefix::Network, "This channel has achieved nitro level 1"@),
        ),
        MessageKind::UserPremiumSubTier2 => Some(
            (EventPrefix::Network, "This channel has achieved nitro level 2"@),
        ),
        MessageKind::UserPremiumSubTier3 => Some(
            (EventPrefix::Network, "This channel has achieved nitro level 3"@),
        ),
        MessageKind::GuildDiscoveryDisqualified => Some(
            (EventPrefix::Network, "This server has been disqualified from Discovery"@),
        ),
        MessageKind::GuildDiscoveryRequalified => Some(
            (EventPrefix::Network, "This server has been requalified for Discovery"@),
        ),
        MessageKind::ChannelFollowAdd => Some(
            (EventPrefix::Network, "This channel is now following "@ + bold_text(t, content)),
        ),
        _ => None,
    }
}

/// The line shown for an event message.
pub fn format_event_message(table: &ColorTable, kind: MessageKind, author: &str, content: &str) -> (r: Option<(EventPrefix, String)>)
    ensures
        match event_text(table@, kind, author@, content@) {
            Some((p, text)) => r is Some && r->Some_0.0 == p && r->Some_0.1@ == text,
            None => r is None,
        },
{
    let with_author = |suffix: &str| -> (r: String)
        ensures
            r@ == bold_text(table@, author@) + suffix@,
    {
        let mut r = bold(table, author);
        push_str(&mut r, suffix);
        r
    };
    match kind {
        MessageKind::RecipientAdd | MessageKind::GuildMemberJoin => Some((EventPrefix::Join, with_author(" joined the group."))),
        MessageKind::RecipientRemove => Some((EventPrefix::Quit, with_author(" left the group."))),
        MessageKind::ChannelNameChange => {
            let mut r = with_author(" changed the channel name to ");
            push_str(&mut r, bold(table, content).as_str());
            push_str(&mut r, ".");
            Some((EventPrefix::Network, r))
        },
        MessageKind::Call => Some((EventPrefix::Network, with_author(" started a call."))),
        MessageKind::ChannelIconChange => Some((EventPrefix::Network, with_author(" changed the channel icon."))),
        MessageKind::ChannelMessagePinned => Some((EventPrefix::Network, with_author(" pinned a message to this channel"))),
        MessageKind::UserPremiumSub => Some((EventPrefix::Network, with_author(" boosted this channel with nitro"))),
        MessageKind::UserPremiumSubTier1 => Some((EventPrefix::Network, String::from_str("This channel has achieved nitro level 1"))),
        MessageKind::UserPremiumSubTier2 => Some((EventPrefix::Network, String::from_str("This channel has achieved nitro level 2"))),
        MessageKind::UserPremiumSubTier3 => Some((EventPrefix::Network, String::from_str("This channel has achieved nitro level 3"))),
        MessageKind::GuildDiscoveryDisqualified => Some((EventPrefix::Network, String::from_str("This server has been disqualified from Discovery"))),
        MessageKind::GuildDiscoveryRequalified => Some((EventPrefix::Network, String::from_str("This server has been requalified for Discovery"))),
        MessageKind::ChannelFollowAdd => {
            let mut r = String::from_str("This channel is now following ");
            push_str(&mut r, bold(table, content).as_str());
            Some((EventPrefix::Network, r))
        },
        _ => None,
    }
}

/// The settings that shape how an author is shown.
pub struct AuthorStyle {
    pub nick_prefix: String,
    pub nick_prefix_color: String,
    pub nick_suffix: String,
    pub nick_suffix_color: String,
}

/// How the author of a message is shown: its member name in colour where
/// the guild member is known, else its user name.
pub open spec fn author_text_of(
    t: Seq<(Seq<char>, Seq<char>)>,
    dir: &Directory,
    guild_id: Option<u64>,
    author_id: u64,
    author_name: Seq<char>,
) -> Seq<char> {
    match guild_id {
        Some(g) => match member_in(dir.members@, g, author_id) {
            Some(m) => built(
                t,
                member_text(
                    match best_colored(known_roles(dir.roles@, m.roles)) {
                        Some(r) => Some(r.color),
                        None => None,
                    },
                    m,
                    false,
                ),
            ),
            None => author_name,
        },
        None => author_name,
    }
}

/// The prefix of a message line: the nick prefix, the author and the nick
/// suffix, each in its colour.
pub open spec fn prefix_text(t: Seq<(Seq<char>, Seq<char>)>, style: &AuthorStyle, author: Seq<char>) -> Seq<char> {
    built(t, colorized(style.nick_prefix@, style.nick_prefix_color@)) + author + built(
        t,
        colorized(style.nick_suffix@, style.nick_suffix_color@),
    )
}

/// The prefix of a message line and the author text inside it.
pub fn format_author_prefix(
    table: &ColorTable,
    dir: &Directory,
    style: &AuthorStyle,
    guild_id: Option<u64>,
    author_id: u64,
    author_name: &str,
) -> (r: (String, String))
    ensures
        r.1@ == author_text_of(table@, dir, guild_id, author_id, author_name@),
        r.0@ == prefix_text(table@, style, r.1@),
{
    let author = match guild_id {
        Some(g) => match dir.member(g, author_id) {
            Some(m) => {
                let styled = colorize_discord_member(dir, m, false);
                proof {
                    crate::mentions::lemma_member_text_balanced(styled@);
                }
                styled.build_with(table)
            },
            None => String::from_str(author_name),
        },
        None => String::from_str(author_name),
    };
    let pre = colorize_string(style.nick_prefix.as_str(), style.nick_prefix_color.as_str());
    let suf = colorize_string(style.nick_suffix.as_str(), style.nick_suffix_color.as_str());
    proof {
        lemma_colorized_balanced(style.nick_prefix@, style.nick_prefix_color@);
        lemma_colorized_balanced(style.nick_suffix@, style.nick_suffix_color@);
    }
    let mut prefix = pre.build_with(table);
    push_str(&mut prefix, author.as_str());
    push_str(&mut prefix, suf.build_with(table).as_str());
    (prefix, author)
}

/// What the plugin keeps of a Discord message.
pub struct MessageData {
    pub id: u64,
    pub channel_id: u64,
    pub guild_id: Option<u64>,
    pub author_id: u64,
    pub author_name: String,
    pub content: String,
    pub kind: MessageKind,
    pub edited: bool,
    pub attachments: Vec<String>,
    pub embeds: Vec<Embed>,
    pub reactions: Vec<ReactionCount>,
    pub mentions: Vec<u64>,
    /// When the message was sent, as Discord writes it (RFC 3339).
    pub timestamp: String,
}

/// The attachment urls after the text, each on a line of its own unless
/// the text so far is empty.
pub open spec fn with_attachments(c: Seq<char>, atts: Seq<String>) -> Seq<char>
    decreases atts.len(),
{
    if atts.len() == 0 {
        c
    } else {
        let r = with_attachments(c, atts.drop_last());
        (if r.len() > 0 {
            r + "\n"@
        } else {
            r
        }) + atts.last()@
    }
}

/// The text of a message before its markdown is turned into colours: the
/// content with its mentions replaced, an edit mark, the attachments, the
/// embeds and the reactions.
pub open spec fn body_source_text(
    t: Seq<(Seq<char>, Seq<char>)>,
    dir: &Directory,
    show_unknown_ids: bool,
    msg: &MessageData,
) -> Seq<char> {
    let c = cleaned_text(t, dir, msg.content@, mentions_in(msg.content@), msg.guild_id, show_unknown_ids);
    let c1 = if msg.edited {
        c + code_in(t, "8"@) + " (edited)"@ + code_in(t, "reset"@)
    } else {
        c
    };
    let c2 = with_attachments(c1, msg.attachments@);
    c2 + embeds_text(t, msg.embeds@, c2.len() > 0) + reactions_text(t, msg.reactions@)
}

/// The text of a message before its markdown is turned into colours; `None`
/// where the content mentions a timestamp.
pub fn body_source(
    table: &ColorTable,
    dir: &Directory,
    show_unknown_ids: bool,
    msg: &MessageData,
    unknown_members: &mut Vec<u64>,
) -> (r: Option<String>)
    requires
        byte_len(msg.content@) <= usize::MAX,
    ensures
        match r {
            Some(s) => !has_timestamp(mentions_in(msg.content@)) && s@ == body_source_text(
                table@,
                dir,
                show_unknown_ids,
                msg,
            ) && final(unknown_members)@ == old(unknown_members)@ + unknown_users(
                dir,
                mentions_in(msg.content@),
                msg.guild_id,
            ),
            None => has_timestamp(mentions_in(msg.content@)) && final(unknown_members)@ == old(
                unknown_members,
            )@,
        },
{
    let mut content = match clean_all(
        table,
        dir,
        msg.content.as_str(),
        msg.guild_id,
        show_unknown_ids,
        unknown_members,
    ) {
        Some(c) => c,
        None => {
            return None;
        },
    };
    if msg.edited {
        push_str(&mut content, table.code("8").as_str());
        push_str(&mut content, " (edited)");
        push_str(&mut content, table.code("reset").as_str());
    }
    let ghost c1 = content@;
    let mut i: usize = 0;
    assert(msg.attachments@.take(0) =~= Seq::<String>::empty());
    while i < msg.attachments.len()
        invariant
            i <= msg.attachments@.len(),
            content@ == with_attachments(c1, msg.attachments@.take(i as int)),
        decreases msg.attachments.len() - i,
    {
        assert(msg.attachments@.take(i + 1).drop_last() =~= msg.attachments@.take(i as int));
        if content.unicode_len() > 0 {
            push_str(&mut content, "\n");
        } else {
            assert(content@ + Seq::<char>::empty() =~= content@);
        }
        push_str(&mut content, msg.attachments[i].as_str());
        i += 1;
    }
    assert(msg.attachments@.take(msg.attachments@.len() as int) =~= msg.attachments@);
    let nonempty = content.unicode_len() > 0;
    let embeds = format_embeds(table, &msg.embeds, nonempty);
    push_str(&mut content, embeds.as_str());
    let reactions = format_reactions(table, &msg.reactions);
    push_str(&mut content, reactions.as_str());
    Some(content)
}

/// Where a line starts: with the author, or with one of weechat's prefixes
/// for events.
#[derive(Debug, PartialEq, Eq)]
pub enum LinePrefix {
    Author(String),
    Event(EventPrefix),
}

/// How a message is shown: its prefix and body, given its author prefix,
/// its raw content, its body once formatted, and, for a reply, the prefix
/// and body of the message replied to.
pub open spec fn assembled(
    t: Seq<(Seq<char>, Seq<char>)>,
    kind: MessageKind,
    prefix: Seq<char>,
    author: Seq<char>,
    content: Seq<char>,
    formatted: Seq<char>,
    reply: Option<(Seq<char>, Seq<char>)>,
) -> (Result<Seq<char>, EventPrefix>, Seq<char>) {
    match event_text(t, kind, author, content) {
        Some((p, body)) => (Err(p), body),
        None => match (kind, reply) {
            (MessageKind::Reply, Some((rp, rb))) => (
                Ok(prefix),
                rp + ":\n"@ + folded(text_lines(rb), "▎"@) + formatted,
            ),
            _ => (Ok(prefix), formatted),
        },
    }
}

/// Puts a message line together.
pub fn assemble(
    table: &ColorTable,
    kind: MessageKind,
    prefix: String,
    author: &str,
    content: &str,
    formatted: String,
    reply: Option<(String, String)>,
) -> (r: (LinePrefix, String))
    ensures
        ({
            let a = assembled(
                table@,
                kind,
                prefix@,
                author@,
                content@,
                formatted@,
                match reply {
                    Some((p, b)) => Some((p@, b@)),
                    None => None,
                },
            );
            &&& r.1@ == a.1
            &&& match (r.0, a.0) {
                (LinePrefix::Author(p), Ok(q)) => p@ == q,
                (LinePrefix::Event(p), Err(q)) => p == q,
                _ => false,
            }
        }),
{
    match format_event_message(table, kind, author, content) {
        Some((p, body)) => (LinePrefix::Event(p), body),
        None => match (kind, reply) {
            (MessageKind::Reply, Some((rp, rb))) => {
                let mut body = rp;
                push_str(&mut body, ":\n");
                let lines = lines_of_text(rb.as_str());
                push_str(&mut body, fold_lines(&lines, "▎").as_str());
                push_str(&mut body, formatted.as_str());
                (LinePrefix::Author(prefix), body)
            },
            _ => (LinePrefix::Author(prefix), formatted),
        },
    }
}

/// A message shown locally before Discord confirms it: greyed out.
pub fn render_echo(table: &ColorTable, author: &str, content: &str) -> (r: (String, String))
    ensures
        r.0@ == author@,
        r.1@ == code_in(table@, "244"@) + content@ + code_in(table@, "resetcolor"@),
{
    let mut body = table.code("244");
    push_str(&mut body, content);
    push_str(&mut body, table.code("resetcolor").as_str());
    (String::from_str(author), body)
}

/// The weechat tags of a message line.
pub open spec fn tags_of(echo: bool, notify: bool, private: bool, mentioned: bool) -> Seq<Seq<char>> {
    if echo {
        seq!["no_log"@]
    } else if !notify {
        seq![]
    } else {
        (if mentioned {
            seq!["notify_highlight"@]
        } else {
            seq![]
        }) + (if private {
            seq!["notify_private"@]
        } else {
            seq![]
        }) + (if !(mentioned || private) {
            seq!["notify_message"@]
        } else {
            seq![]
        })
    }
}

/// The tags of a message line: a highlight where it mentions the user, a
/// private notice in a private channel, a plain notice otherwise; a local
/// echo is never logged.
pub fn message_tags(echo: bool, notify: bool, private: bool, mentioned: bool) -> (r: Vec<String>)
    ensures
        r@.map_values(|s: String| s@) == tags_of(echo, notify, private, mentioned),
{
    let mut r: Vec<String> = Vec::new();
    if echo {
        r.push(String::from_str("no_log"));
    } else if notify {
        if mentioned {
            r.push(String::from_str("notify_highlight"));
        }
        if private {
            r.push(String::from_str("notify_private"));
        }
        if !(mentioned || private) {
            r.push(String::from_str("notify_message"));
        }
    }
    assert(r@.map_values(|s: String| s@) =~= tags_of(echo, notify, private, mentioned));
    r
}

/// What the tags of a line say: a local echo is never logged and notifies
/// nothing; a message from Discord that notifies is a highlight exactly when
/// it mentions the user, a private notice exactly when its channel is
/// private, and a plain notice exactly when it is neither; a message that
/// does not notify has no tags.
pub proof fn law_tags_say_why(echo: bool, notify: bool, private: bool, mentioned: bool)
    ensures
        tags_of(echo, notify, private, mentioned).contains("no_log"@) == echo,
        !echo && notify ==> (tags_of(echo, notify, private, mentioned).contains(
            "notify_highlight"@,
        ) == mentioned),
        !echo && notify ==> (tags_of(echo, notify, private, mentioned).contains(
            "notify_private"@,
        ) == private),
        !echo && notify ==> (tags_of(echo, notify, private, mentioned).contains(
            "notify_message"@,
        ) == (!mentioned && !private)),
        echo || !notify ==> !tags_of(echo, notify, private, mentioned).contains("notify_highlight"@)
            && !tags_of(echo, notify, private, mentioned).contains("notify_private"@)
            && !tags_of(echo, notify, private, mentioned).contains("notify_message"@),
{
    reveal_strlit("no_log");
    reveal_strlit("notify_highlight");
    reveal_strlit("notify_private");
    reveal_strlit("notify_message");
    let h = "notify_highlight"@;
    let p = "notify_private"@;
    let m = "notify_message"@;
    let n = "no_log"@;
    assert(h != p && h != m && h != n && p != m && p != n && m != n) by {
        assert(h[7] != p[7]);
        assert(h[7] != m[7]);
        assert(h.len() != n.len());
        assert(p[7] != m[7]);
        assert(p.len() != n.len());
        assert(m.len() != n.len());
    }
    let t = tags_of(echo, notify, private, mentioned);
    if echo {
        assert(t == seq![n]);
        assert(t[0] == n);
    } else if notify {
        let a = if mentioned { seq![h] } else { Seq::<Seq<char>>::empty() };
        let b = if private { seq![p] } else { Seq::<Seq<char>>::empty() };
        let c = if !(mentioned || private) { seq![m] } else { Seq::<Seq<char>>::empty() };
        assert(t == a + b + c);
        assert forall|x: Seq<char>| t.contains(x) <==> (a.contains(x) || b.contains(x) || c.contains(x)) by {
            if t.contains(x) {
                let k = choose|k: int| 0 <= k < t.len() && t[k] == x;
                if k < a.len() {
                    assert(a[k] == x);
                } else if k < a.len() + b.len() {
                    assert(b[k - a.len()] == x);
                } else {
                    assert(c[k - a.len() - b.len()] == x);
                }
            }
            if a.contains(x) {
                let k = choose|k: int| 0 <= k < a.len() && a[k] == x;
                assert(t[k] == x);
            }
            if b.contains(x) {
                let k = choose|k: int| 0 <= k < b.len() && b[k] == x;
                assert(t[a.len() + k] == x);
            }
            if c.contains(x) {
                let k = choose|k: int| 0 <= k < c.len() && c[k] == x;
                assert(t[a.len() + b.len() + k] == x);
            }
        }
        if mentioned {
            assert(a[0] == h);
        }
        if private {
            assert(b[0] == p);
        }
        if !(mentioned || private) {
            assert(c[0] == m);
        }
    } else {
        assert(t =~= Seq::<Seq<char>>::empty());
    }
}

/// Whether the current user is among those a message mentions.
pub fn mentions_user(mentions: &Vec<u64>, current_user: Option<u64>) -> (b: bool)
    ensures
        b == match current_user {
            Some(u) => mentions@.contains(u),
            None => false,
        },
{
    match current_user {
        None => false,
        Some(u) => {
            let mut i: usize = 0;
            while i < mentions.len()
                invariant
                    i <= mentions@.len(),
                    current_user == Some(u),
                    forall|k: int| 0 <= k < i ==> mentions@[k] != u,
                decreases mentions.len() - i,
            {
                if mentions[i] == u {
                    assert(mentions@[i as int] == u);
                    return true;
                }
                i += 1;
            }
            false
        },
    }
}

/// The position, among the local echoes only, of the echo with nonce `n`.
pub open spec fn echo_position(nonces: Seq<Option<u64>>, n: u64) -> Option<int>
    decreases nonces.len(),
{
    if nonces.len() == 0 {
        None
    } else {
        match nonces[0] {
            Some(x) => if x == n {
                Some(0)
            } else {
                match echo_position(nonces.drop_first(), n) {
                    Some(i) => Some(i + 1),
                    None => None,
                }
            },
            None => echo_position(nonces.drop_first(), n),
        }
    }
}

/// Finds the local echo that a confirmed message with nonce `n` replaces:
/// its position among the echoes (each message is given as its nonce if it
/// is an echo).
pub fn echo_index(nonces: &Vec<Option<u64>>, n: u64) -> (r: Option<usize>)
    ensures
        match echo_position(nonces@, n) {
            Some(i) => r == Some(i as usize) && i <= nonces@.len(),
            None => r is None,
        },
{
    let mut i: usize = 0;
    let mut echoes: usize = 0;
    assert(nonces@.skip(0) =~= nonces@);
    while i < nonces.len()
        invariant
            i <= nonces@.len(),
            echoes <= i,
            echo_position(nonces@, n) == match echo_position(nonces@.skip(i as int), n) {
                Some(q) => Some(q + echoes),
                None => None,
            },
        decreases nonces.len() - i,
    {
        let ghost rest = nonces@.skip(i as int);
        assert(rest[0] == nonces@[i as int]);
        assert(rest.drop_first() =~= nonces@.skip(i + 1));
        match nonces[i] {
            Some(x) => {
                if x == n {
                    return Some(echoes);
                }
                echoes += 1;
            },
            None => {},
        }
        i += 1;
    }
    None
}

fn append_ids(v: &mut Vec<u64>, more: &Vec<u64>)
    ensures
        final(v)@ == old(v)@ + more@,
{
    let mut i: usize = 0;
    let ghost start = v@;
    assert(start + more@.take(0) =~= start);
    while i < more.len()
        invariant
            i <= more@.len(),
            v@ == start + more@.take(i as int),
        decreases more.len() - i,
    {
        v.push(more[i]);
        assert(v@ =~= start + more@.take(i + 1));
        i += 1;
    }
    assert(more@.take(more@.len() as int) =~= more@);
}

/// A message line of a channel buffer: a message shown locally until
/// Discord confirms it, or a message from Discord.
pub enum ShownMessage {
    LocalEcho { author: String, content: String, timestamp: i64, nonce: u64 },
    Text(MessageData),
}

impl ShownMessage {
    /// A local echo of a message being sent, stamped with the current time in
    /// seconds since the Unix epoch (0 for a clock set before it).
    pub fn new_echo(author: String, content: String, nonce: u64) -> (m: ShownMessage)
        ensures
            m matches ShownMessage::LocalEcho { author: a, content: c, nonce: n, timestamp: t }
                && a@ == author@ && c@ == content@ && n == nonce && t >= 0,
    {
        let secs = unix_now();
        let timestamp: i64 = if secs <= 0x7fff_ffff_ffff_ffff {
            secs as i64
        } else {
            0x7fff_ffff_ffff_ffff
        };
        ShownMessage::LocalEcho { author, content, timestamp, nonce }
    }

    /// When the line was sent; `None` where Discord's timestamp cannot be read.
    pub fn timestamp(&self) -> (r: Option<i64>)
        ensures
            r == match self {
                ShownMessage::LocalEcho { timestamp, .. } => Some(*timestamp),
                ShownMessage::Text(m) => rfc3339_seconds(m.timestamp@),
            },
    {
        match self {
            ShownMessage::LocalEcho { timestamp, .. } => Some(*timestamp),
            ShownMessage::Text(m) => parse_rfc3339(m.timestamp.as_str()),
        }
    }

    /// The id of the line: the message's, or the nonce of an echo.
    pub fn id(&self) -> (r: u64)
        ensures
            r == match self {
                ShownMessage::LocalEcho { nonce, .. } => *nonce,
                ShownMessage::Text(m) => m.id,
            },
    {
        match self {
            ShownMessage::LocalEcho { nonce, .. } => *nonce,
            ShownMessage::Text(m) => m.id,
        }
    }
}

/// The changes a message update carries.
pub struct MessageUpdate {
    pub id: u64,
    pub channel_id: u64,
    pub edited: bool,
    pub mentions: Option<Vec<u64>>,
    pub attachments: Option<Vec<String>>,
    pub author: Option<(u64, String)>,
    pub content: Option<String>,
    pub embeds: Option<Vec<Embed>>,
    pub kind: Option<MessageKind>,
    pub timestamp: Option<String>,
}

impl MessageData {
    /// Applies an update: the id, channel and edit mark always; the mentions
    /// it names are added; the other parts replace the old ones where given.
    pub fn update(&mut self, update: MessageUpdate)
        ensures
            final(self).id == update.id,
            final(self).channel_id == update.channel_id,
            final(self).edited == update.edited,
            final(self).mentions@ == old(self).mentions@ + match update.mentions {
                Some(m) => m@,
                None => Seq::<u64>::empty(),
            },
            final(self).attachments@ == match update.attachments {
                Some(a) => a@,
                None => old(self).attachments@,
            },
            (final(self).author_id, final(self).author_name@) == match update.author {
                Some((i, n)) => (i, n@),
                None => (old(self).author_id, old(self).author_name@),
            },
            final(self).content@ == match update.content {
                Some(c) => c@,
                None => old(self).content@,
            },
            final(self).embeds@ == match update.embeds {
                Some(e) => e@,
                None => old(self).embeds@,
            },
            final(self).kind == match update.kind {
                Some(k) => k,
                None => old(self).kind,
            },
            final(self).timestamp@ == match update.timestamp {
                Some(t) => t@,
                None => old(self).timestamp@,
            },
            final(self).guild_id == old(self).guild_id,
            final(self).reactions@ == old(self).reactions@,
    {
        self.id = update.id;
        self.channel_id = update.channel_id;
        self.edited = update.edited;
        match &update.mentions {
            Some(mentions) => append_ids(&mut self.mentions, mentions),
            None => {
                assert(self.mentions@ + Seq::<u64>::empty() =~= self.mentions@);
            },
        }
        if let Some(attachments) = update.attachments {
            self.attachments = attachments;
        }
        if let Some((id, name)) = update.author {
            self.author_id = id;
            self.author_name = name;
        }
        if let Some(content) = update.content {
            self.content = content;
        }
        if let Some(embeds) = update.embeds {
            self.embeds = embeds;
        }
        if let Some(kind) = update.kind {
            self.kind = kind;
        }
        if let Some(timestamp) = update.timestamp {
            self.timestamp = timestamp;
        }
    }
}

} // verus!
