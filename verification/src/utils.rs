//! Small formatting helpers: numbers, durations, Discord colours, buffer
//! names, folded lines and coloured text.
use crate::style::Style;
use crate::styled_string::{text_ops, OpView, StyledString};
use crate::text::{
    find_chars, first_occurrence, push_char, push_str, replace_all, replace_str, to_chars,
};
use vstd::prelude::*;
use vstd::string::StrSliceExecFns;

verus! {

/// The decimal digits of `n`, without leading zeros (`n.to_string()`).
pub open spec fn decimal(n: nat) -> Seq<char>
    decreases n,
{
    if n < 10 {
        seq![digit_char(n)]
    } else {
        decimal(n / 10).push(digit_char(n % 10))
    }
}

/// The digit character for `d < 10`.
pub open spec fn digit_char(d: nat) -> char {
    if d == 0 {
        '0'
    } else if d == 1 {
        '1'
    } else if d == 2 {
        '2'
    } else if d == 3 {
        '3'
    } else if d == 4 {
        '4'
    } else if d == 5 {
        '5'
    } else if d == 6 {
        '6'
    } else if d == 7 {
        '7'
    } else if d == 8 {
        '8'
    } else {
        '9'
    }
}

fn digit(d: u64) -> (c: char)
    requires
        d < 10,
    ensures
        c == digit_char(d as nat),
{
    if d == 0 {
        '0'
    } else if d == 1 {
        '1'
    } else if d == 2 {
        '2'
    } else if d == 3 {
        '3'
    } else if d == 4 {
        '4'
    } else if d == 5 {
        '5'
    } else if d == 6 {
        '6'
    } else if d == 7 {
        '7'
    } else if d == 8 {
        '8'
    } else {
        '9'
    }
}

/// The decimal text of `n`.
pub fn u64_to_string(n: u64) -> (s: String)
    ensures
        s@ == decimal(n as nat),
    decreases n,
{
    if n < 10 {
        let mut s = String::new();
        push_char(&mut s, digit(n));
        assert(s@ =~= seq![digit_char(n as nat)]);
        s
    } else {
        let mut s = u64_to_string(n / 10);
        push_char(&mut s, digit(n % 10));
        s
    }
}

/// A duration in whole seconds, in the largest unit it fills: seconds under
/// a minute, then minutes, hours, and days.
pub open spec fn humanized(d: nat) -> Seq<char> {
    if d < 60 {
        decimal(d) + "s"@
    } else if d < 3600 {
        decimal(d / 60) + "m"@
    } else if d < 86400 {
        decimal(d / 60 / 60) + "h"@
    } else {
        decimal(d / 60 / 60 / 24) + "d"@
    }
}

/// A short text for a duration of `duration` seconds, such as `5m`.
pub fn humanize_duration(duration: u64) -> (s: String)
    ensures
        s@ == humanized(duration as nat),
{
    let (n, unit) = if duration < 60 {
        (duration, "s")
    } else if duration < 3600 {
        (duration / 60, "m")
    } else if duration < 86400 {
        (duration / 60 / 60, "h")
    } else {
        (duration / 60 / 60 / 24, "d")
    };
    let mut s = u64_to_string(n);
    push_str(&mut s, unit);
    s
}

/// A Discord colour, `0xRRGGBB`.
#[derive(Copy, Clone, Debug)]
pub struct Color(pub u32);

/// The 256-colour palette index nearest below an RGB colour: the 6x6x6 cube
/// that starts at 16, each channel scaled from 0..=255 to 0..=5.
pub open spec fn palette_index(r: int, g: int, b: int) -> int {
    16 + 36 * (r * 5 / 255) + 6 * (g * 5 / 255) + b * 5 / 255
}

impl Color {
    /// The colour with value `value`.
    pub fn new(value: u32) -> (c: Color)
        ensures
            c.0 == value,
    {
        Color(value)
    }

    /// The red channel.
    pub fn r(self) -> (r: u8)
        ensures
            r == (self.0 / 65536) % 256,
    {
        let v = self.0;
        assert((v >> 16u32) & 255u32 == (v / 65536) % 256) by (bit_vector);
        ((v >> 16u32) & 255u32) as u8
    }

    /// The green channel.
    pub fn g(self) -> (g: u8)
        ensures
            g == (self.0 / 256) % 256,
    {
        let v = self.0;
        assert((v >> 8u32) & 255u32 == (v / 256) % 256) by (bit_vector);
        ((v >> 8u32) & 255u32) as u8
    }

    /// The blue channel.
    pub fn b(self) -> (b: u8)
        ensures
            b == self.0 % 256,
    {
        let v = self.0;
        assert(v & 255u32 == v % 256) by (bit_vector);
        (v & 255u32) as u8
    }

    /// The nearest weechat 256-colour palette index.
    pub fn as_8bit(self) -> (c: u8)
        ensures
            c == palette_index(
                ((self.0 / 65536) % 256) as int,
                ((self.0 / 256) % 256) as int,
                (self.0 % 256) as int,
            ),
    {
        let r = (self.r() as u16 * 5 / 255) as u8;
        let g = (self.g() as u16 * 5 / 255) as u8;
        let b = (self.b() as u16 * 5 / 255) as u8;
        assert(r <= 5 && g <= 5 && b <= 5);
        16 + 36 * r + 6 * g + b
    }
}

/// The text of `ops` colored by [`colorize_string`].
pub open spec fn colorized(text: Seq<char>, color: Seq<char>) -> Seq<OpView> {
    if text.len() == 0 || color.len() == 0 {
        text_ops(text)
    } else {
        seq![OpView::Push(crate::style::StyleView::Color(color))] + text_ops(text) + seq![
            OpView::Pop(crate::style::StyleView::Color(color)),
        ]
    }
}

/// `text` in the weechat colour `color`; plain where either is empty.
pub fn colorize_string(text: &str, color: &str) -> (s: StyledString)
    ensures
        s@ == colorized(text@, color@),
{
    let mut builder = StyledString::new();
    if text.unicode_len() == 0 || color.unicode_len() == 0 {
        builder.push_str(text);
        assert(Seq::<OpView>::empty() + text_ops(text@) =~= text_ops(text@));
    } else {
        builder.push_styled_str(Style::color(color), text);
        assert(Seq::<OpView>::empty() + seq![OpView::Push(crate::style::StyleView::Color(color@))]
            =~= seq![OpView::Push(crate::style::StyleView::Color(color@))]);
    }
    builder
}

/// A nick in the colour weechat gives it, `nick_color` (as weechat's
/// `nick_color_name` info reports it), or in `reset` where weechat gives none.
pub fn colorize_weechat_nick(nick: &str, nick_color: Option<&str>) -> (s: StyledString)
    ensures
        s@ == colorized(
            nick@,
            match nick_color {
                Some(c) => c@,
                None => "reset"@,
            },
        ),
{
    match nick_color {
        Some(c) => colorize_string(nick, c),
        None => colorize_string(nick, "reset"),
    }
}

/// `name` as a buffer name: spaces become `_`; quotes, apostrophes and dots go.
pub open spec fn cleaned(name: Seq<char>) -> Seq<char> {
    replace_all(
        replace_all(replace_all(replace_all(name, " "@, "_"@), "'"@, ""@), "\""@, ""@),
        "."@,
        ""@,
    )
}

/// What `str::to_lowercase` gives for a text; the Unicode case tables decide it.
pub uninterp spec fn lowercase(s: Seq<char>) -> Seq<char>;

/// `str::to_lowercase`: the text in lower case, by Unicode's rules.
#[verifier::external_body]
fn to_lowercase(s: &str) -> (r: String)
    ensures
        r@ == lowercase(s@),
{
    s.to_lowercase()
}

/// The buffer name for a name, keeping its case.
pub fn clean_name_with_case(name: &str) -> (s: String)
    ensures
        s@ == cleaned(name@),
{
    let a = replace_str(name, " ", "_");
    let b = replace_str(a.as_str(), "'", "");
    let c = replace_str(b.as_str(), "\"", "");
    replace_str(c.as_str(), ".", "")
}

/// The buffer name for a name, in lower case.
pub fn clean_name(name: &str) -> (s: String)
    ensures
        s@ == cleaned(lowercase(name@)),
{
    let lower = to_lowercase(name);
    clean_name_with_case(lower.as_str())
}

/// Each line after `sep` and followed by a line break.
pub open spec fn folded(lines: Seq<Seq<char>>, sep: Seq<char>) -> Seq<char>
    decreases lines.len(),
{
    if lines.len() == 0 {
        seq![]
    } else {
        folded(lines.drop_last(), sep) + sep + lines.last() + seq!['\n']
    }
}

/// Prefixes each line with `sep` and ends it with a line break.
pub fn fold_lines(lines: &Vec<String>, sep: &str) -> (s: String)
    ensures
        s@ == folded(lines@.map_values(|l: String| l@), sep@),
{
    let ghost ls = lines@.map_values(|l: String| l@);
    let mut s = String::new();
    let mut i: usize = 0;
    assert(ls.take(0) =~= Seq::<Seq<char>>::empty());
    while i < lines.len()
        invariant
            i <= lines.len(),
            ls == lines@.map_values(|l: String| l@),
            s@ == folded(ls.take(i as int), sep@),
        decreases lines.len() - i,
    {
        assert(ls.take(i + 1).drop_last() =~= ls.take(i as int));
        assert(ls.take(i + 1).last() == lines@[i as int]@);
        push_str(&mut s, sep);
        push_str(&mut s, lines[i].as_str());
        push_char(&mut s, '\n');
        i += 1;
    }
    assert(ls.take(ls.len() as int) =~= ls);
    s
}

/// Lines of a block quote, each behind a bar.
pub fn format_block_quote(lines: &Vec<String>) -> (s: String)
    ensures
        s@ == folded(lines@.map_values(|l: String| l@), "▎"@),
{
    fold_lines(lines, "▎")
}

/// `line` after its first `> `, or all of it without one.
pub open spec fn after_bracket(line: Seq<char>) -> Seq<char> {
    match first_occurrence(line, "> "@) {
        Some(i) => line.skip(i + 2),
        None => line,
    }
}

/// Removes the leading `> ` marker of a quoted line, with what stands before it.
pub fn strip_leading_bracket(line: &str) -> (s: &str)
    ensures
        s@ == after_bracket(line@),
{
    let v = to_chars(line);
    let marker = to_chars("> ");
    proof {
        reveal_strlit("> ");
    }
    assert(marker@.len() == 2);
    match find_chars(&v, &marker) {
        Some(i) => {
            assert(crate::text::occurs_at(v@, marker@, i as int));
            assert(i + marker@.len() <= v@.len());
            assert(i + 2 <= v.len());
            assert(v@.skip(i + 2) =~= v@.subrange(i + 2, v@.len() as int));
            line.substring_char(i + 2, v.len())
        },
        None => {
            assert(v@.subrange(0, v@.len() as int) =~= v@);
            line.substring_char(0, v.len())
        },
    }
}

/// Replacing a one-character pattern by `rep`: what is left of the text is
/// its other characters and those of `rep`, and a text without the
/// character is left as it is.
proof fn lemma_replace_char(s: Seq<char>, c: char, rep: Seq<char>)
    ensures
        forall|d: char|
            #[trigger] replace_all(s, seq![c], rep).contains(d) ==> (s.contains(d) && d != c)
                || rep.contains(d),
        !s.contains(c) ==> replace_all(s, seq![c], rep) == s,
    decreases s.len(),
{
    let pat = seq![c];
    if s.len() == 0 {
        assert(replace_all(s, pat, rep) == s);
    } else {
        let rest = s.drop_first();
        lemma_replace_char(rest, c, rep);
        assert(s.skip(1) =~= rest);
        assert forall|d: char| rest.contains(d) implies s.contains(d) by {
            let k = choose|k: int| 0 <= k < rest.len() && rest[k] == d;
            assert(s[k + 1] == d);
        }
        if s.take(1) == pat {
            assert(s[0] == s.take(1)[0]);
            assert(s.contains(c)) by {
                assert(s[0] == c);
            }
            let r = replace_all(s, pat, rep);
            assert(r == rep + replace_all(rest, pat, rep));
            assert forall|d: char| #[trigger] r.contains(d) implies (s.contains(d) && d != c)
                || rep.contains(d) by {
                let k = choose|k: int| 0 <= k < r.len() && r[k] == d;
                if k >= rep.len() {
                    assert(replace_all(rest, pat, rep)[k - rep.len()] == d);
                    assert(replace_all(rest, pat, rep).contains(d));
                } else {
                    assert(rep[k] == d);
                    assert(rep.contains(d));
                }
            }
        } else {
            assert(s[0] != c) by {
                if s[0] == c {
                    assert(s.take(1) =~= pat);
                }
            }
            let r = replace_all(s, pat, rep);
            assert(r == seq![s[0]] + replace_all(rest, pat, rep));
            assert forall|d: char| #[trigger] r.contains(d) implies (s.contains(d) && d != c)
                || rep.contains(d) by {
                let k = choose|k: int| 0 <= k < r.len() && r[k] == d;
                if k == 0 {
                    assert(s[0] == d);
                    assert(s.contains(d));
                } else {
                    assert(replace_all(rest, pat, rep)[k - 1] == d);
                    assert(replace_all(rest, pat, rep).contains(d));
                }
            }
            if !s.contains(c) {
                assert(!rest.contains(c));
                assert(seq![s[0]] + rest =~= s);
            }
        }
    }
}

/// A buffer name has no space, apostrophe, quote or dot, and cleaning it
/// again changes nothing.
pub proof fn law_cleaned_name(name: Seq<char>)
    ensures
        !cleaned(name).contains(' '),
        !cleaned(name).contains('\''),
        !cleaned(name).contains('"'),
        !cleaned(name).contains('.'),
        cleaned(cleaned(name)) == cleaned(name),
{
    reveal_strlit(" ");
    reveal_strlit("_");
    reveal_strlit("'");
    reveal_strlit("\"");
    reveal_strlit(".");
    reveal_strlit("");
    assert(" "@ =~= seq![' ']);
    assert("_"@ =~= seq!['_']);
    assert("'"@ =~= seq!['\'']);
    assert("\""@ =~= seq!['"']);
    assert("."@ =~= seq!['.']);
    assert(!"_"@.contains(' ') && !"_"@.contains('\'') && !"_"@.contains('"') && !"_"@.contains('.')) by {
        assert("_"@[0] == '_');
    }
    assert(!""@.contains(' ') && !""@.contains('\'') && !""@.contains('"') && !""@.contains('.'));
    let a = replace_all(name, " "@, "_"@);
    let b = replace_all(a, "'"@, ""@);
    let c = replace_all(b, "\""@, ""@);
    let d = replace_all(c, "."@, ""@);
    lemma_replace_char(name, ' ', "_"@);
    lemma_replace_char(a, '\'', ""@);
    lemma_replace_char(b, '"', ""@);
    lemma_replace_char(c, '.', ""@);
    assert(d == cleaned(name));
    assert(!a.contains(' '));
    assert(!b.contains(' ') && !b.contains('\''));
    assert(!c.contains(' ') && !c.contains('\'') && !c.contains('"'));
    assert(!d.contains(' ') && !d.contains('\'') && !d.contains('"') && !d.contains('.'));
    lemma_replace_char(d, ' ', "_"@);
    lemma_replace_char(d, '\'', ""@);
    lemma_replace_char(d, '"', ""@);
    lemma_replace_char(d, '.', ""@);
}

} // verus!
