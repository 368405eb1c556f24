//! Discord markdown, already parsed into a tree, turned into weechat text:
//! emphasis becomes weechat attributes, code and strikethrough colours kept
//! on a stack, quotes become folded blocks, and mentions readable names.
use crate::directory::{color_code, color_name, role_in, Directory};
use crate::mentions::{reply, reply_of, FoundMention, MentionKind};
use crate::style::{code_in, ColorTable};
use crate::text::{copy_string, push_str};
use crate::typing::joined;
use crate::utils::{after_bracket, fold_lines, folded, strip_leading_bracket};
use crate::message::{lines_of_text, text_lines};
use vstd::prelude::*;

verus! {

/// A node of parsed Discord markdown.
pub enum MdNode {
    Bold(Vec<MdNode>),
    Italic(Vec<MdNode>),
    Underline(Vec<MdNode>),
    Strikethrough(Vec<MdNode>),
    Spoiler(Vec<MdNode>),
    Text(String),
    InlineCode(String),
    Code(String, String),
    BlockQuote(Vec<MdNode>),
    SingleBlockQuote(Vec<MdNode>),
    UserMention(u64),
    ChannelMention(u64),
    Emoji(String, u64),
    RoleMention(u64),
}

/// What the reducer needs to know besides the tree.
pub struct Context<'a> {
    pub table: &'a ColorTable,
    pub dir: &'a Directory,
    pub guild_id: Option<u64>,
    pub show_unknown_ids: bool,
}

/// The stack of colours without its top.
pub open spec fn popped(st: Seq<Seq<char>>) -> Seq<Seq<char>> {
    if st.len() > 0 {
        st.drop_last()
    } else {
        st
    }
}

/// The codes of the colours of a stack, bottom first.
pub open spec fn stack_codes(t: Seq<(Seq<char>, Seq<char>)>, st: Seq<Seq<char>>) -> Seq<char>
    decreases st.len(),
{
    if st.len() == 0 {
        seq![]
    } else {
        stack_codes(t, st.drop_last()) + code_in(t, st.last())
    }
}

/// What ends a colour: a colour reset, then the colours still on the stack.
pub open spec fn reset_text(t: Seq<(Seq<char>, Seq<char>)>, st: Seq<Seq<char>>) -> Seq<char> {
    code_in(t, "resetcolor"@) + stack_codes(t, st)
}

/// A role mention: the role's name in its colour, then the colour reset;
/// `@unknown-role` for a role nobody knows.
pub open spec fn role_mention_of(t: Seq<(Seq<char>, Seq<char>)>, dir: &Directory, id: u64) -> Seq<char> {
    match role_in(dir.roles@, id) {
        Some(r) => code_in(t, color_name(r.color)) + "@"@ + r.name + code_in(t, "resetcolor"@),
        None => "@unknown-role"@,
    }
}

/// A mention node as the mention it stands for.
pub open spec fn as_mention(kind: MentionKind, id: u64) -> FoundMention {
    FoundMention { kind, id, start: 0, end: 0 }
}

/// Each line of a code block between the colour codes.
pub open spec fn code_lines(lines: Seq<Seq<char>>, fmt: Seq<char>, reset: Seq<char>) -> Seq<Seq<char>> {
    lines.map_values(|l: Seq<char>| fmt + l + reset)
}

/// The text of a node, the colour stack after it and the unknown users it
/// names, starting from the colour stack `st`.
pub open spec fn reduce_spec(
    t: Seq<(Seq<char>, Seq<char>)>,
    dir: &Directory,
    guild: Option<u64>,
    show: bool,
    node: MdNode,
    st: Seq<Seq<char>>,
) -> (Seq<char>, Seq<Seq<char>>, Seq<u64>)
    decreases node, 0nat,
{
    match node {
        MdNode::Bold(c) => {
            let (x, s, u) = reduce_all_spec(t, dir, guild, show, c@, st);
            (code_in(t, "bold"@) + "**"@ + x + "**"@ + code_in(t, "-bold"@), s, u)
        },
        MdNode::Italic(c) => {
            let (x, s, u) = reduce_all_spec(t, dir, guild, show, c@, st);
            (code_in(t, "italic"@) + "_"@ + x + "_"@ + code_in(t, "-italic"@), s, u)
        },
        MdNode::Underline(c) => {
            let (x, s, u) = reduce_all_spec(t, dir, guild, show, c@, st);
            (code_in(t, "underline"@) + "__"@ + x + "__"@ + code_in(t, "-underline"@), s, u)
        },
        MdNode::Strikethrough(c) => {
            let (x, s, u) = reduce_all_spec(t, dir, guild, show, c@, st.push("|red"@));
            (
                code_in(t, "|red"@) + "~~"@ + x + "~~"@ + reset_text(t, popped(s)),
                popped(s),
                u,
            )
        },
        MdNode::Spoiler(c) => {
            let (x, s, u) = reduce_all_spec(t, dir, guild, show, c@, st);
            (code_in(t, "italic"@) + "||"@ + x + "||"@ + code_in(t, "-italic"@), s, u)
        },
        MdNode::Text(s) => (s@, st, seq![]),
        MdNode::InlineCode(s) => (
            code_in(t, "|*8"@) + "`"@ + s@ + "`"@ + code_in(t, "-bold"@) + reset_text(t, st),
            st,
            seq![],
        ),
        MdNode::Code(lang, text) => (
            "```"@ + lang@ + "\n"@ + joined(
                code_lines(
                    text_lines(text@),
                    code_in(t, "|*8"@),
                    reset_text(t, st) + code_in(t, "-bold"@),
                ),
                "\n"@,
            ) + "\n```"@,
            st,
            seq![],
        ),
        MdNode::BlockQuote(c) => {
            let (x, s, u) = reduce_all_spec(t, dir, guild, show, c@, st);
            (folded(text_lines(x), "▎"@), s, u)
        },
        MdNode::SingleBlockQuote(c) => {
            let (x, s, u) = reduce_all_spec(t, dir, guild, show, c@, st);
            (folded(text_lines(x).map_values(|l: Seq<char>| after_bracket(l)), "▎"@), s, u)
        },
        MdNode::UserMention(id) => {
            let r = reply_of(t, dir, as_mention(MentionKind::User, id), guild, show);
            (
                r.0,
                st,
                if r.1 {
                    seq![id]
                } else {
                    seq![]
                },
            )
        },
        MdNode::ChannelMention(id) => (
            reply_of(t, dir, as_mention(MentionKind::Channel, id), guild, show).0,
            st,
            seq![],
        ),
        MdNode::Emoji(_, id) => (
            reply_of(t, dir, as_mention(MentionKind::Emoji, id), guild, show).0,
            st,
            seq![],
        ),
        MdNode::RoleMention(id) => (role_mention_of(t, dir, id), st, seq![]),
    }
}

/// The nodes' texts one after the other, the stack threaded through them.
pub open spec fn reduce_all_spec(
    t: Seq<(Seq<char>, Seq<char>)>,
    dir: &Directory,
    guild: Option<u64>,
    show: bool,
    nodes: Seq<MdNode>,
    st: Seq<Seq<char>>,
) -> (Seq<char>, Seq<Seq<char>>, Seq<u64>)
    decreases nodes, 1nat,
{
    if nodes.len() == 0 {
        (seq![], st, seq![])
    } else {
        let (x1, s1, u1) = reduce_all_spec(t, dir, guild, show, nodes.drop_last(), st);
        let (x2, s2, u2) = reduce_spec(t, dir, guild, show, nodes.last(), s1);
        (x1 + x2, s2, u1 + u2)
    }
}

/// The texts of a stack of colour names.
pub open spec fn names(v: Seq<String>) -> Seq<Seq<char>> {
    v.map_values(|s: String| s@)
}

fn stack_codes_of(table: &ColorTable, st: &Vec<String>) -> (r: String)
    ensures
        r@ == stack_codes(table@, names(st@)),
{
    let mut r = String::new();
    let mut i: usize = 0;
    assert(names(st@).take(0) =~= Seq::<Seq<char>>::empty());
    while i < st.len()
        invariant
            i <= st@.len(),
            r@ == stack_codes(table@, names(st@).take(i as int)),
        decreases st.len() - i,
    {
        assert(names(st@).take(i + 1).drop_last() =~= names(st@).take(i as int));
        assert(names(st@).take(i + 1).last() == st@[i as int]@);
        push_str(&mut r, table.code(st[i].as_str()).as_str());
        i += 1;
    }
    assert(names(st@).take(names(st@).len() as int) =~= names(st@));
    r
}

fn reset_of(table: &ColorTable, st: &Vec<String>) -> (r: String)
    ensures
        r@ == reset_text(table@, names(st@)),
{
    let mut r = table.code("resetcolor");
    push_str(&mut r, stack_codes_of(table, st).as_str());
    r
}

fn push_color(table: &ColorTable, st: &mut Vec<String>, color: &str) -> (r: String)
    ensures
        r@ == code_in(table@, color@),
        names(final(st)@) == names(old(st)@).push(color@),
{
    st.push(String::from_str(color));
    assert(names(st@) =~= names(old(st)@).push(color@));
    table.code(color)
}

fn pop_color(table: &ColorTable, st: &mut Vec<String>) -> (r: String)
    ensures
        names(final(st)@) == popped(names(old(st)@)),
        r@ == reset_text(table@, popped(names(old(st)@))),
{
    let _ = st.pop();
    assert(names(st@) =~= popped(names(old(st)@)));
    reset_of(table, st)
}

fn mention_text(ctx: &Context, kind: MentionKind, id: u64, unknown: &mut Vec<u64>) -> (r: String)
    requires
        kind != MentionKind::Timestamp,
    ensures
        r@ == reply_of(ctx.table@, ctx.dir, as_mention(kind, id), ctx.guild_id, ctx.show_unknown_ids).0,
        final(unknown)@ == old(unknown)@ + if reply_of(
            ctx.table@,
            ctx.dir,
            as_mention(kind, id),
            ctx.guild_id,
            ctx.show_unknown_ids,
        ).1 {
            seq![id]
        } else {
            seq![]
        },
{
    let (text, is_unknown) = reply(ctx.table, ctx.dir, FoundMention { kind, id, start: 0, end: 0 }, ctx.guild_id, ctx.show_unknown_ids);
    if is_unknown {
        unknown.push(id);
    } else {
        assert(unknown@ + Seq::<u64>::empty() =~= unknown@);
    }
    text
}

fn role_mention_text(ctx: &Context, id: u64) -> (r: String)
    ensures
        r@ == role_mention_of(ctx.table@, ctx.dir, id),
{
    match ctx.dir.role(id) {
        Some(role) => {
            let mut r = ctx.table.code(color_code(crate::utils::Color::new(role.color)).as_str());
            push_str(&mut r, "@");
            push_str(&mut r, role.name.as_str());
            push_str(&mut r, ctx.table.code("resetcolor").as_str());
            r
        },
        None => String::from_str("@unknown-role"),
    }
}

fn wrap(pre: String, x: &str, post: &str) -> (r: String)
    ensures
        r@ == pre@ + x@ + post@,
{
    let mut r = pre;
    push_str(&mut r, x);
    push_str(&mut r, post);
    r
}

fn code_block(ctx: &Context, lang: &String, text: &String, st: &Vec<String>) -> (r: String)
    ensures
        r@ == "```"@ + lang@ + "\n"@ + joined(
            code_lines(
                text_lines(text@),
                code_in(ctx.table@, "|*8"@),
                reset_text(ctx.table@, names(st@)) + code_in(ctx.table@, "-bold"@),
            ),
            "\n"@,
        ) + "\n```"@,
{
    let fmt = ctx.table.code("|*8");
    let mut reset = reset_of(ctx.table, st);
    push_str(&mut reset, ctx.table.code("-bold").as_str());
    let lines = lines_of_text(text.as_str());
    let ghost lv = lines@.map_values(|l: String| l@);
    let ghost cl = code_lines(lv, fmt@, reset@);
    let mut body = String::new();
    let mut i: usize = 0;
    assert(cl.take(0) =~= Seq::<Seq<char>>::empty());
    while i < lines.len()
        invariant
            i <= lines@.len(),
            lv == lines@.map_values(|l: String| l@),
            cl == code_lines(lv, fmt@, reset@),
            body@ == joined(cl.take(i as int), "\n"@),
        decreases lines.len() - i,
    {
        assert(cl.take(i + 1).drop_last() =~= cl.take(i as int));
        assert(cl[i as int] == fmt@ + lines@[i as int]@ + reset@);
        if i > 0 {
            push_str(&mut body, "\n");
        } else {
            assert(body@ =~= Seq::<char>::empty());
        }
        push_str(&mut body, fmt.as_str());
        push_str(&mut body, lines[i].as_str());
        push_str(&mut body, reset.as_str());
        if i == 0 {
            assert(body@ =~= cl.take(1)[0]);
        }
        i += 1;
    }
    assert(cl.take(cl.len() as int) =~= cl);
    let mut r = String::from_str("```");
    push_str(&mut r, lang.as_str());
    push_str(&mut r, "\n");
    push_str(&mut r, body.as_str());
    push_str(&mut r, "\n```");
    r
}

fn quote_lines(x: &String, single: bool) -> (r: String)
    ensures
        r@ == if single {
            folded(text_lines(x@).map_values(|l: Seq<char>| after_bracket(l)), "▎"@)
        } else {
            folded(text_lines(x@), "▎"@)
        },
{
    let lines = lines_of_text(x.as_str());
    if single {
        let ghost lv = lines@.map_values(|l: String| l@);
        let mut stripped: Vec<String> = Vec::new();
        let mut i: usize = 0;
        assert(stripped@.map_values(|l: String| l@) =~= lv.take(0).map_values(|l: Seq<char>| after_bracket(l)));
        while i < lines.len()
            invariant
                i <= lines@.len(),
                lv == lines@.map_values(|l: String| l@),
                stripped@.map_values(|l: String| l@) == lv.take(i as int).map_values(|l: Seq<char>| after_bracket(l)),
            decreases lines.len() - i,
        {
            let ghost before = stripped@.map_values(|l: String| l@);
            let cut = strip_leading_bracket(lines[i].as_str());
            stripped.push(String::from_str(cut));
            assert(stripped@.map_values(|l: String| l@) =~= before.push(after_bracket(lv[i as int])));
            assert(lv.take(i + 1).map_values(|l: Seq<char>| after_bracket(l)) =~= lv.take(i as int).map_values(
                |l: Seq<char>| after_bracket(l),
            ).push(after_bracket(lv[i as int])));
            i += 1;
        }
        assert(lv.take(lv.len() as int) =~= lv);
        fold_lines(&stripped, "▎")
    } else {
        fold_lines(&lines, "▎")
    }
}

/// An emphasis: its switch-on code, a mark, the children, the mark again and
/// the switch-off code.
fn emph(
    ctx: &Context,
    c: &Vec<MdNode>,
    st: &mut Vec<String>,
    unknown: &mut Vec<u64>,
    on: &str,
    mark: &str,
    off: &str,
) -> (r: String)
    ensures
        ({
            let s = reduce_all_spec(ctx.table@, ctx.dir, ctx.guild_id, ctx.show_unknown_ids, c@, names(old(st)@));
            &&& r@ == code_in(ctx.table@, on@) + mark@ + s.0 + mark@ + code_in(ctx.table@, off@)
            &&& names(final(st)@) == s.1
            &&& final(unknown)@ == old(unknown)@ + s.2
        }),
    decreases c@, 2nat,
{
    let x = reduce_all(ctx, c, st, unknown);
    wrap(wrap(ctx.table.code(on), mark, x.as_str()), mark, ctx.table.code(off).as_str())
}

fn strike(ctx: &Context, c: &Vec<MdNode>, st: &mut Vec<String>, unknown: &mut Vec<u64>) -> (r: String)
    ensures
        ({
            let s = reduce_all_spec(
                ctx.table@,
                ctx.dir,
                ctx.guild_id,
                ctx.show_unknown_ids,
                c@,
                names(old(st)@).push("|red"@),
            );
            &&& r@ == code_in(ctx.table@, "|red"@) + "~~"@ + s.0 + "~~"@ + reset_text(ctx.table@, popped(s.1))
            &&& names(final(st)@) == popped(s.1)
            &&& final(unknown)@ == old(unknown)@ + s.2
        }),
    decreases c@, 2nat,
{
    let open = push_color(ctx.table, st, "|red");
    let x = reduce_all(ctx, c, st, unknown);
    let close = pop_color(ctx.table, st);
    wrap(wrap(open, "~~", x.as_str()), "~~", close.as_str())
}

fn quote(ctx: &Context, c: &Vec<MdNode>, st: &mut Vec<String>, unknown: &mut Vec<u64>, single: bool) -> (r: String)
    ensures
        ({
            let s = reduce_all_spec(ctx.table@, ctx.dir, ctx.guild_id, ctx.show_unknown_ids, c@, names(old(st)@));
            &&& r@ == if single {
                folded(text_lines(s.0).map_values(|l: Seq<char>| after_bracket(l)), "▎"@)
            } else {
                folded(text_lines(s.0), "▎"@)
            }
            &&& names(final(st)@) == s.1
            &&& final(unknown)@ == old(unknown)@ + s.2
        }),
    decreases c@, 2nat,
{
    let x = reduce_all(ctx, c, st, unknown);
    quote_lines(&x, single)
}

fn inline_code(ctx: &Context, s: &String, st: &mut Vec<String>) -> (r: String)
    ensures
        r@ == code_in(ctx.table@, "|*8"@) + "`"@ + s@ + "`"@ + code_in(ctx.table@, "-bold"@) + reset_text(
            ctx.table@,
            names(old(st)@),
        ),
        names(final(st)@) == names(old(st)@),
{
    let open = push_color(ctx.table, st, "|*8");
    let body = wrap(wrap(open, "`", s.as_str()), "`", ctx.table.code("-bold").as_str());
    let close = pop_color(ctx.table, st);
    assert(names(st@) =~= names(old(st)@));
    let mut r = body;
    push_str(&mut r, close.as_str());
    r
}

fn code_node(ctx: &Context, lang: &String, text: &String, st: &mut Vec<String>) -> (r: String)
    ensures
        r@ == "```"@ + lang@ + "\n"@ + joined(
            code_lines(
                text_lines(text@),
                code_in(ctx.table@, "|*8"@),
                reset_text(ctx.table@, names(old(st)@)) + code_in(ctx.table@, "-bold"@),
            ),
            "\n"@,
        ) + "\n```"@,
        names(final(st)@) == names(old(st)@),
{
    let _open = push_color(ctx.table, st, "|*8");
    let _close = pop_color(ctx.table, st);
    assert(names(st@) =~= names(old(st)@));
    code_block(ctx, lang, text, st)
}

/// Turns one markdown node into weechat text.
pub fn reduce(ctx: &Context, node: &MdNode, st: &mut Vec<String>, unknown: &mut Vec<u64>) -> (r: String)
    ensures
        ({
            let s = reduce_spec(
                ctx.table@,
                ctx.dir,
                ctx.guild_id,
                ctx.show_unknown_ids,
                *node,
                names(old(st)@),
            );
            &&& r@ == s.0
            &&& names(final(st)@) == s.1
            &&& final(unknown)@ == old(unknown)@ + s.2
        }),
    decreases node, 0nat,
{
    match node {
        MdNode::Bold(c) => emph(ctx, c, st, unknown, "bold", "**", "-bold"),
        MdNode::Italic(c) => emph(ctx, c, st, unknown, "italic", "_", "-italic"),
        MdNode::Underline(c) => emph(ctx, c, st, unknown, "underline", "__", "-underline"),
        MdNode::Strikethrough(c) => strike(ctx, c, st, unknown),
        MdNode::Spoiler(c) => emph(ctx, c, st, unknown, "italic", "||", "-italic"),
        MdNode::Text(s) => {
            assert(unknown@ + Seq::<u64>::empty() =~= unknown@);
            copy_string(s)
        },
        MdNode::InlineCode(s) => {
            assert(unknown@ + Seq::<u64>::empty() =~= unknown@);
            inline_code(ctx, s, st)
        },
        MdNode::Code(lang, text) => {
            assert(unknown@ + Seq::<u64>::empty() =~= unknown@);
            code_node(ctx, lang, text, st)
        },
        MdNode::BlockQuote(c) => quote(ctx, c, st, unknown, false),
        MdNode::SingleBlockQuote(c) => quote(ctx, c, st, unknown, true),
        MdNode::UserMention(id) => mention_text(ctx, MentionKind::User, *id, unknown),
        MdNode::ChannelMention(id) => {
            let r = mention_text(ctx, MentionKind::Channel, *id, unknown);
            assert(unknown@ =~= old(unknown)@ + Seq::<u64>::empty());
            r
        },
        MdNode::Emoji(_, id) => {
            let r = mention_text(ctx, MentionKind::Emoji, *id, unknown);
            assert(unknown@ =~= old(unknown)@ + Seq::<u64>::empty());
            r
        },
        MdNode::RoleMention(id) => {
            assert(unknown@ =~= old(unknown)@ + Seq::<u64>::empty());
            role_mention_text(ctx, *id)
        },
    }
}

/// Turns a list of markdown nodes into weechat text, one after the other.
pub fn reduce_all(ctx: &Context, nodes: &Vec<MdNode>, st: &mut Vec<String>, unknown: &mut Vec<u64>) -> (r: String)
    ensures
        ({
            let s = reduce_all_spec(
                ctx.table@,
                ctx.dir,
                ctx.guild_id,
                ctx.show_unknown_ids,
                nodes@,
                names(old(st)@),
            );
            &&& r@ == s.0
            &&& names(final(st)@) == s.1
            &&& final(unknown)@ == old(unknown)@ + s.2
        }),
    decreases nodes@, 1nat,
{
    let ghost st0 = names(st@);
    let ghost u0 = unknown@;
    let mut out = String::new();
    let mut i: usize = 0;
    assert(nodes@.take(0) =~= Seq::<MdNode>::empty());
    assert(u0 + Seq::<u64>::empty() =~= u0);
    while i < nodes.len()
        invariant
            i <= nodes@.len(),
            st0 == names(old(st)@),
            u0 == old(unknown)@,
            ({
                let s = reduce_all_spec(
                    ctx.table@,
                    ctx.dir,
                    ctx.guild_id,
                    ctx.show_unknown_ids,
                    nodes@.take(i as int),
                    st0,
                );
                &&& out@ == s.0
                &&& names(st@) == s.1
                &&& unknown@ == u0 + s.2
            }),
        decreases nodes.len() - i,
    {
        assert(nodes@.take(i + 1).drop_last() =~= nodes@.take(i as int));
        assert(nodes@.take(i + 1).last() == nodes@[i as int]);
        let ghost ub = unknown@;
        let x = reduce(ctx, &nodes[i], st, unknown);
        push_str(&mut out, x.as_str());
        proof {
            let s = reduce_all_spec(ctx.table@, ctx.dir, ctx.guild_id, ctx.show_unknown_ids, nodes@.take(i as int), st0);
            let s2 = reduce_spec(ctx.table@, ctx.dir, ctx.guild_id, ctx.show_unknown_ids, nodes@[i as int], s.1);
            assert(unknown@ == ub + s2.2);
            assert(u0 + s.2 + s2.2 =~= u0 + (s.2 + s2.2));
        }
        i += 1;
    }
    assert(nodes@.take(nodes@.len() as int) =~= nodes@);
    out
}

/// Turns parsed Discord markdown into weechat text; the ids of users that
/// it mentions but nobody knows are added to `unknown`.
pub fn discord_to_weechat(ctx: &Context, nodes: &Vec<MdNode>, unknown: &mut Vec<u64>) -> (r: String)
    ensures
        r@ == reduce_all_spec(
            ctx.table@,
            ctx.dir,
            ctx.guild_id,
            ctx.show_unknown_ids,
            nodes@,
            Seq::empty(),
        ).0,
        final(unknown)@ == old(unknown)@ + reduce_all_spec(
            ctx.table@,
            ctx.dir,
            ctx.guild_id,
            ctx.show_unknown_ids,
            nodes@,
            Seq::empty(),
        ).2,
{
    let mut st: Vec<String> = Vec::new();
    assert(names(st@) =~= Seq::<Seq<char>>::empty());
    reduce_all(ctx, nodes, &mut st, unknown)
}

/// Every colour a node pushes it pops again: the colour stack after a node is
/// the one before it.
pub proof fn law_reduce_keeps_stack(
    t: Seq<(Seq<char>, Seq<char>)>,
    dir: &Directory,
    guild: Option<u64>,
    show: bool,
    node: MdNode,
    st: Seq<Seq<char>>,
)
    ensures
        reduce_spec(t, dir, guild, show, node, st).1 == st,
    decreases node, 0nat,
{
    match node {
        MdNode::Bold(c) => law_reduce_all_keeps_stack(t, dir, guild, show, c@, st),
        MdNode::Italic(c) => law_reduce_all_keeps_stack(t, dir, guild, show, c@, st),
        MdNode::Underline(c) => law_reduce_all_keeps_stack(t, dir, guild, show, c@, st),
        MdNode::Strikethrough(c) => {
            law_reduce_all_keeps_stack(t, dir, guild, show, c@, st.push("|red"@));
            assert(st.push("|red"@).drop_last() =~= st);
        },
        MdNode::Spoiler(c) => law_reduce_all_keeps_stack(t, dir, guild, show, c@, st),
        MdNode::BlockQuote(c) => law_reduce_all_keeps_stack(t, dir, guild, show, c@, st),
        MdNode::SingleBlockQuote(c) => law_reduce_all_keeps_stack(t, dir, guild, show, c@, st),
        _ => {},
    }
}

/// The colour stack after a list of nodes is the one before it.
pub proof fn law_reduce_all_keeps_stack(
    t: Seq<(Seq<char>, Seq<char>)>,
    dir: &Directory,
    guild: Option<u64>,
    show: bool,
    nodes: Seq<MdNode>,
    st: Seq<Seq<char>>,
)
    ensures
        reduce_all_spec(t, dir, guild, show, nodes, st).1 == st,
    decreases nodes, 1nat,
{
    if nodes.len() > 0 {
        law_reduce_all_keeps_stack(t, dir, guild, show, nodes.drop_last(), st);
        law_reduce_keeps_stack(t, dir, guild, show, nodes.last(), st);
    }
}

} // verus!
