//! The lines of the channel editor buffer: each guild with whether it
//! connects by itself, each text channel with whether it is joined by
//! itself and watched.
use crate::style::{ColorTable, Style, StyleView};
use crate::styled_laws::{law_plain_text_builds_to_itself, law_styled_text_keeps_styles};
use crate::styled_string::{balanced, built, text_ops, OpView, StyledString};
use crate::text::{push_char, push_str, to_chars};
use vstd::prelude::*;

verus! {

/// `s` followed by spaces up to `width` characters (`format!("{:width$}", s)`).
pub open spec fn padded(s: Seq<char>, width: int) -> Seq<char> {
    s + Seq::new(
        if s.len() < width {
            (width - s.len()) as nat
        } else {
            0
        },
        |i: int| ' ',
    )
}

/// `ops` followed by `text` in style `x`.
pub open spec fn then_styled(ops: Seq<OpView>, x: StyleView, text: Seq<char>) -> Seq<OpView> {
    ops + seq![OpView::Push(x)] + text_ops(text) + seq![OpView::Pop(x)]
}

/// `ops` followed by `=yes` or `=no `, the answer in cyan or yellow.
pub open spec fn then_answer(ops: Seq<OpView>, yes: bool) -> Seq<OpView> {
    let with_eq = then_styled(ops, StyleView::Bold, "="@);
    if yes {
        then_styled(with_eq, StyleView::Color("cyan"@), "yes"@)
    } else {
        then_styled(with_eq, StyleView::Color("yellow"@), "no "@)
    }
}

/// `ops` followed by the setting `label` and its answer, opened by `open`.
pub open spec fn then_setting(ops: Seq<OpView>, open: Seq<char>, label: Seq<char>, yes: bool) -> Seq<OpView> {
    then_answer(
        then_styled(then_styled(ops, StyleView::Reset, open), StyleView::Color("green"@), label),
        yes,
    )
}

/// The editor line of a channel.
pub open spec fn channel_line_ops(name: Seq<char>, autojoin: bool, watched: bool) -> Seq<OpView> {
    then_styled(
        then_setting(
            then_setting(text_ops("  "@ + padded(name, 20) + " "@), "["@, "autojoin"@, autojoin),
            "] ["@,
            "watched"@,
            watched,
        ),
        StyleView::Reset,
        "]"@,
    )
}

/// The editor line of a guild.
pub open spec fn guild_line_ops(name: Seq<char>, autoconnect: bool) -> Seq<OpView> {
    then_styled(
        then_setting(text_ops(padded(name, 22) + " "@), "["@, "autoconnect"@, autoconnect),
        StyleView::Reset,
        "]"@,
    )
}

fn push_padded(s: &mut String, text: &str, width: usize)
    ensures
        final(s)@ == old(s)@ + padded(text@, width as int),
{
    push_str(s, text);
    let n = to_chars(text).len();
    let mut k = n;
    while k < width
        invariant
            n == text@.len(),
            n <= k <= width || (k == n && n >= width),
            s@ == old(s)@ + text@ + Seq::new((k - n) as nat, |i: int| ' '),
        decreases width - k,
    {
        let ghost before = s@;
        push_char(s, ' ');
        assert(Seq::new((k - n) as nat, |i: int| ' ').push(' ') =~= Seq::new(
            (k + 1 - n) as nat,
            |i: int| ' ',
        ));
        assert(s@ =~= old(s)@ + text@ + Seq::new((k + 1 - n) as nat, |i: int| ' '));
        k += 1;
    }
    assert(s@ =~= old(s)@ + padded(text@, width as int));
}

fn push_answer(line: &mut StyledString, yes: bool)
    requires
        balanced(old(line)@),
    ensures
        final(line)@ == then_answer(old(line)@, yes),
        balanced(final(line)@),
{
    let ghost a = line@;
    line.push_styled_str(Style::Bold, "=");
    proof {
        law_styled_text_keeps_styles(a, StyleView::Bold, "="@);
    }
    let ghost b = line@;
    if yes {
        line.push_styled_str(Style::Color(String::from_str("cyan")), "yes");
        proof {
            law_styled_text_keeps_styles(b, StyleView::Color("cyan"@), "yes"@);
        }
    } else {
        line.push_styled_str(Style::Color(String::from_str("yellow")), "no ");
        proof {
            law_styled_text_keeps_styles(b, StyleView::Color("yellow"@), "no "@);
        }
    }
}

fn push_setting(line: &mut StyledString, open: &str, label: &str, yes: bool)
    requires
        balanced(old(line)@),
    ensures
        final(line)@ == then_setting(old(line)@, open@, label@, yes),
        balanced(final(line)@),
{
    let ghost a = line@;
    line.push_styled_str(Style::Reset, open);
    proof {
        law_styled_text_keeps_styles(a, StyleView::Reset, open@);
    }
    let ghost b = line@;
    line.push_styled_str(Style::Color(String::from_str("green")), label);
    proof {
        law_styled_text_keeps_styles(b, StyleView::Color("green"@), label@);
    }
    push_answer(line, yes);
}

fn close_line(line: &mut StyledString)
    requires
        balanced(old(line)@),
    ensures
        final(line)@ == then_styled(old(line)@, StyleView::Reset, "]"@),
        balanced(final(line)@),
{
    let ghost a = line@;
    line.push_styled_str(Style::Reset, "]");
    proof {
        law_styled_text_keeps_styles(a, StyleView::Reset, "]"@);
    }
}

/// The editor line of a channel, given whether it is autojoined and watched.
pub fn format_channel_line(table: &ColorTable, name: &str, autojoin: bool, watched: bool) -> (s: String)
    ensures
        s@ == built(table@, channel_line_ops(name@, autojoin, watched)),
{
    let mut head = String::from_str("  ");
    push_padded(&mut head, name, 20);
    push_str(&mut head, " ");
    let mut line = StyledString::new();
    line.push_str(head.as_str());
    proof {
        law_plain_text_builds_to_itself(table@, head@);
        assert(Seq::<OpView>::empty() + text_ops(head@) =~= text_ops(head@));
    }
    push_setting(&mut line, "[", "autojoin", autojoin);
    push_setting(&mut line, "] [", "watched", watched);
    close_line(&mut line);
    line.build_with(table)
}

/// The editor line of a guild, given whether it connects by itself.
pub fn format_guild_line(table: &ColorTable, name: &str, autoconnect: bool) -> (s: String)
    ensures
        s@ == built(table@, guild_line_ops(name@, autoconnect)),
{
    let mut head = String::new();
    push_padded(&mut head, name, 22);
    push_str(&mut head, " ");
    let mut line = StyledString::new();
    line.push_str(head.as_str());
    proof {
        law_plain_text_builds_to_itself(table@, head@);
        assert(Seq::<OpView>::empty() + text_ops(head@) =~= text_ops(head@));
        assert(Seq::<char>::empty() + padded(name@, 22) =~= padded(name@, 22));
    }
    push_setting(&mut line, "[", "autoconnect", autoconnect);
    close_line(&mut line);
    line.build_with(table)
}

} // verus!
