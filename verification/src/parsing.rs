//! The two small grammars of the input line: `s/old/new/` edits of earlier
//! messages and `+emoji` / `-emoji` reactions, each optionally prefixed by a
//! digit that counts messages back from the last one.
//!
//! The grammars are those of the patterns
//! `^(\d)?s/(.*?(?<!\\))/(.*?(?<!\\))(?:/|$)(\w+)?` and
//! `^(\d)?([+\-])(<:.+:(\d+)>|.*).*$`, read with backtracking: `.` matches
//! anything but a line break, `$` matches at the end of the text or before a
//! line break, and `\d`, `\w` are the ASCII digits and word characters.
use crate::text::to_chars;
use vstd::prelude::*;
use vstd::string::StrSliceExecFns;

verus! {

/// An ASCII digit (`\d`).
pub open spec fn is_digit(c: char) -> bool {
    '0' <= c && c <= '9'
}

/// An ASCII word character (`\w`).
pub open spec fn is_word(c: char) -> bool {
    is_digit(c) || ('a' <= c && c <= 'z') || ('A' <= c && c <= 'Z') || c == '_'
}

/// `$`: the end of the text or of a line.
pub open spec fn at_line_end(s: Seq<char>, i: int) -> bool {
    i == s.len() || (0 <= i < s.len() && s[i] == '\n')
}

/// Where the replacement text ends: the first `e >= from` at which a lazy
/// `.*?(?<!\\)` followed by `(?:/|$)` can stop.
pub open spec fn scan_new(s: Seq<char>, e: int) -> Option<int>
    decreases s.len() + 1 - e,
{
    if e < 1 || e > s.len() {
        None
    } else if s[e - 1] != '\\' && (at_line_end(s, e) || s[e] == '/') {
        Some(e)
    } else if at_line_end(s, e) {
        None
    } else {
        scan_new(s, e + 1)
    }
}

/// Where the searched text ends: the first `e >= from` at which a lazy
/// `.*?(?<!\\)` followed by `/` can stop with a replacement after it.
pub open spec fn scan_old(s: Seq<char>, e: int) -> Option<int>
    decreases s.len() - e,
{
    if e < 1 || e >= s.len() || s[e] == '\n' {
        None
    } else if s[e] == '/' && s[e - 1] != '\\' && scan_new(s, e + 1) is Some {
        Some(e)
    } else {
        scan_old(s, e + 1)
    }
}

/// The end of the run of word characters that starts at `i`.
pub open spec fn word_end(s: Seq<char>, i: int) -> int
    decreases s.len() - i,
{
    if i < 0 || i >= s.len() || !is_word(s[i]) {
        i
    } else {
        word_end(s, i + 1)
    }
}

/// Length of the optional leading digit.
pub open spec fn digit_prefix(s: Seq<char>) -> int {
    if s.len() > 0 && is_digit(s[0]) {
        1
    } else {
        0
    }
}

/// The line count given by the leading digit: its value, or 1 without one.
pub open spec fn line_of(s: Seq<char>) -> int {
    if digit_prefix(s) == 1 {
        s[0] as int - '0' as int
    } else {
        1
    }
}

/// The match of the edit pattern: the bounds of the searched text, of the
/// replacement and of the options.
pub open spec fn edit_match(s: Seq<char>) -> Option<(int, int, int, int, int, int)> {
    let p = digit_prefix(s);
    if s.len() >= p + 2 && s[p] == 's' && s[p + 1] == '/' {
        match scan_old(s, p + 2) {
            Some(e2) => {
                let e3 = scan_new(s, e2 + 1)->Some_0;
                let o = if e3 < s.len() && s[e3] == '/' {
                    e3 + 1
                } else {
                    e3
                };
                Some((p + 2, e2, e2 + 1, e3, o, word_end(s, o)))
            },
            None => None,
        }
    } else {
        None
    }
}

/// An edit of an earlier message, typed as `s/old/new/` or `s//`.
#[derive(Debug)]
pub enum LineEdit<'a> {
    Sub { line: usize, old: &'a str, new: &'a str, options: Option<&'a str> },
    Delete { line: usize },
}

/// The mathematical value of a [`LineEdit`].
pub enum LineEditView {
    Sub { line: int, old: Seq<char>, new: Seq<char>, options: Option<Seq<char>> },
    Delete { line: int },
}

impl<'a> View for LineEdit<'a> {
    type V = LineEditView;

    open spec fn view(&self) -> LineEditView {
        match self {
            LineEdit::Sub { line, old, new, options } => LineEditView::Sub {
                line: *line as int,
                old: old@,
                new: new@,
                options: match options {
                    Some(o) => Some(o@),
                    None => None,
                },
            },
            LineEdit::Delete { line } => LineEditView::Delete { line: *line as int },
        }
    }
}

/// The edit that the text `s` stands for, if it is one.
pub open spec fn line_edit_of(s: Seq<char>) -> Option<LineEditView> {
    match edit_match(s) {
        Some((a, b, c, d, o, w)) => {
            let line = line_of(s);
            if b == a && d == c {
                Some(LineEditView::Delete { line })
            } else {
                Some(
                    LineEditView::Sub {
                        line,
                        old: s.subrange(a, b),
                        new: s.subrange(c, d),
                        options: if w > o {
                            Some(s.subrange(o, w))
                        } else {
                            None
                        },
                    },
                )
            }
        },
        None => None,
    }
}

fn char_is_digit(c: char) -> (b: bool)
    ensures
        b == is_digit(c),
{
    '0' <= c && c <= '9'
}

fn char_is_word(c: char) -> (b: bool)
    ensures
        b == is_word(c),
{
    char_is_digit(c) || ('a' <= c && c <= 'z') || ('A' <= c && c <= 'Z') || c == '_'
}

fn line_end_at(v: &Vec<char>, i: usize) -> (b: bool)
    requires
        i <= v.len(),
    ensures
        b == at_line_end(v@, i as int),
{
    i == v.len() || v[i] == '\n'
}

fn find_new_end(v: &Vec<char>, from: usize) -> (r: Option<usize>)
    requires
        1 <= from <= v.len(),
    ensures
        match scan_new(v@, from as int) {
            Some(e) => r == Some(e as usize) && from <= e <= v.len(),
            None => r is None,
        },
{
    let mut e = from;
    loop
        invariant
            1 <= from <= e <= v.len(),
            scan_new(v@, e as int) == scan_new(v@, from as int),
        decreases v.len() - e,
    {
        let end = line_end_at(v, e);
        if v[e - 1] != '\\' && (end || v[e] == '/') {
            return Some(e);
        }
        if end {
            return None;
        }
        e += 1;
    }
}

fn find_old_end(v: &Vec<char>, from: usize) -> (r: Option<(usize, usize)>)
    requires
        1 <= from <= v.len(),
    ensures
        match scan_old(v@, from as int) {
            Some(e2) => r is Some && r->Some_0.0 == e2 && from <= e2 < v.len() && Some(
                r->Some_0.1 as int,
            ) == scan_new(v@, e2 + 1) && e2 + 1 <= r->Some_0.1 <= v.len(),
            None => r is None,
        },
{
    let mut e = from;
    while e < v.len()
        invariant
            1 <= from <= e <= v.len(),
            scan_old(v@, e as int) == scan_old(v@, from as int),
        decreases v.len() - e,
    {
        if v[e] == '\n' {
            return None;
        }
        if v[e] == '/' && v[e - 1] != '\\' {
            match find_new_end(v, e + 1) {
                Some(e3) => {
                    return Some((e, e3));
                },
                None => {},
            }
        }
        e += 1;
    }
    None
}

fn find_word_end(v: &Vec<char>, from: usize) -> (r: usize)
    requires
        from <= v.len(),
    ensures
        r == word_end(v@, from as int),
        from <= r <= v.len(),
{
    let mut i = from;
    while i < v.len() && char_is_word(v[i])
        invariant
            from <= i <= v.len(),
            word_end(v@, i as int) == word_end(v@, from as int),
        decreases v.len() - i,
    {
        i += 1;
    }
    i
}

impl<'a> LineEdit<'a> {
    /// Reads an edit from the input line: `s/old/new/` (optionally followed by
    /// options such as `g`) or, with both parts empty, `s//` to delete; a
    /// leading digit names the message, counting back from the last one.
    pub fn parse(input: &'a str) -> (r: Option<LineEdit<'a>>)
        ensures
            match r {
                Some(e) => line_edit_of(input@) == Some(e@),
                None => line_edit_of(input@) is None,
            },
    {
        let v = to_chars(input);
        let p: usize = if v.len() > 0 && char_is_digit(v[0]) {
            1
        } else {
            0
        };
        if !(v.len() >= p + 2 && v[p] == 's' && v[p + 1] == '/') {
            return None;
        }
        let (e2, e3) = match find_old_end(&v, p + 2) {
            Some(found) => found,
            None => {
                return None;
            },
        };
        let line: usize = if p == 1 {
            let d = v[0] as u32 - '0' as u32;
            d as usize
        } else {
            1
        };
        let a = p + 2;
        let c = e2 + 1;
        if e2 == a && e3 == c {
            return Some(LineEdit::Delete { line });
        }
        let o = if e3 < v.len() && v[e3] == '/' {
            e3 + 1
        } else {
            e3
        };
        let w = find_word_end(&v, o);
        let old = input.substring_char(a, e2);
        let new = input.substring_char(c, e3);
        let options = if w > o {
            Some(input.substring_char(o, w))
        } else {
            None
        };
        Some(LineEdit::Sub { line, old, new, options })
    }
}

/// The end of the run of digits that starts at `i`.
pub open spec fn digit_end(s: Seq<char>, i: int) -> int
    decreases s.len() - i,
{
    if i < 0 || i >= s.len() || !is_digit(s[i]) {
        i
    } else {
        digit_end(s, i + 1)
    }
}

/// The first end of the text or of a line at or after `i`.
pub open spec fn line_end_from(s: Seq<char>, i: int) -> int
    decreases s.len() - i,
{
    if i < 0 || i >= s.len() || s[i] == '\n' {
        i
    } else {
        line_end_from(s, i + 1)
    }
}

/// `:` at `c` followed by digits and `>`.
pub open spec fn custom_tail_at(s: Seq<char>, c: int) -> bool {
    0 <= c < s.len() && s[c] == ':' && digit_end(s, c + 1) > c + 1 && digit_end(s, c + 1)
        < s.len() && s[digit_end(s, c + 1)] == '>'
}

/// The last position `c` in `lo..=hi` at which [`custom_tail_at`] holds
/// (the greedy `.+` gives back characters from the end).
pub open spec fn last_custom_tail(s: Seq<char>, lo: int, hi: int) -> Option<int>
    decreases hi - lo + 1,
{
    if hi < lo {
        None
    } else if custom_tail_at(s, hi) {
        Some(hi)
    } else {
        last_custom_tail(s, lo, hi - 1)
    }
}

/// The value of a string of decimal digits.
pub open spec fn digits_value(s: Seq<char>) -> nat
    decreases s.len(),
{
    if s.len() == 0 {
        0
    } else {
        digits_value(s.drop_last()) * 10 + (s.last() as nat - '0' as nat) as nat
    }
}

/// The match of the reaction pattern: whether it adds, and the bounds of the
/// emoji and, for a custom emoji, of its id.
pub open spec fn reaction_match(s: Seq<char>) -> Option<(bool, int, int, Option<(int, int)>)> {
    let p = digit_prefix(s);
    let start = p + 1;
    if s.len() > p && (s[p] == '+' || s[p] == '-') {
        let add = s[p] == '+';
        let custom = if s.len() > start + 1 && s[start] == '<' && s[start + 1] == ':' {
            last_custom_tail(s, start + 3, line_end_from(s, start + 2) - 1)
        } else {
            None
        };
        match custom {
            Some(c) => {
                let m = digit_end(s, c + 1);
                Some((add, start, m + 1, Some((c + 1, m))))
            },
            None => Some((add, start, line_end_from(s, start), None)),
        }
    } else {
        None
    }
}

/// An emoji named in a reaction.
#[derive(Debug)]
pub enum Emoji<'a> {
    Custom(&'a str, u64),
    Shortcode(&'a str),
    Unicode(&'a str),
}

/// A reaction typed as `+emoji` or `-emoji`.
#[derive(Debug)]
pub struct Reaction<'a> {
    pub add: bool,
    pub emoji: Emoji<'a>,
    pub line: usize,
}

/// The mathematical value of an [`Emoji`].
pub enum EmojiView {
    Custom(Seq<char>, u64),
    Shortcode(Seq<char>),
    Unicode(Seq<char>),
}

/// The mathematical value of a [`Reaction`].
pub struct ReactionView {
    pub add: bool,
    pub emoji: EmojiView,
    pub line: int,
}

impl<'a> View for Emoji<'a> {
    type V = EmojiView;

    open spec fn view(&self) -> EmojiView {
        match self {
            Emoji::Custom(t, id) => EmojiView::Custom(t@, *id),
            Emoji::Shortcode(t) => EmojiView::Shortcode(t@),
            Emoji::Unicode(t) => EmojiView::Unicode(t@),
        }
    }
}

impl<'a> View for Reaction<'a> {
    type V = ReactionView;

    open spec fn view(&self) -> ReactionView {
        ReactionView { add: self.add, emoji: self.emoji@, line: self.line as int }
    }
}

/// The emoji text is exactly `:`, which the shortcode rule cannot cut.
pub open spec fn reaction_is_lone_colon(s: Seq<char>) -> bool {
    match reaction_match(s) {
        Some((_, a, b, custom)) => b == a + 1 && s[a] == ':' && match custom {
            Some((x, y)) => digits_value(s.subrange(x, y)) > u64::MAX,
            None => true,
        },
        None => false,
    }
}

/// The reaction that the text `s` stands for, if it is one.
pub open spec fn reaction_of(s: Seq<char>) -> Option<ReactionView> {
    match reaction_match(s) {
        Some((add, a, b, custom)) => {
            let emoji = s.subrange(a, b);
            let id = match custom {
                Some((x, y)) => if digits_value(s.subrange(x, y)) <= u64::MAX {
                    Some(digits_value(s.subrange(x, y)) as u64)
                } else {
                    None
                },
                None => None,
            };
            let e = match id {
                Some(n) => EmojiView::Custom(emoji, n),
                None => if emoji.len() > 0 && emoji[0] == ':' && emoji.last() == ':' {
                    EmojiView::Shortcode(emoji.subrange(1, emoji.len() - 1))
                } else {
                    EmojiView::Unicode(emoji)
                },
            };
            Some(ReactionView { add, emoji: e, line: line_of(s) })
        },
        None => None,
    }
}

fn find_digit_end(v: &Vec<char>, from: usize) -> (r: usize)
    requires
        from <= v.len(),
    ensures
        r == digit_end(v@, from as int),
        from <= r <= v.len(),
{
    let mut i = from;
    while i < v.len() && char_is_digit(v[i])
        invariant
            from <= i <= v.len(),
            digit_end(v@, i as int) == digit_end(v@, from as int),
        decreases v.len() - i,
    {
        i += 1;
    }
    i
}

fn find_line_end(v: &Vec<char>, from: usize) -> (r: usize)
    requires
        from <= v.len(),
    ensures
        r == line_end_from(v@, from as int),
        from <= r <= v.len(),
{
    let mut i = from;
    while i < v.len() && v[i] != '\n'
        invariant
            from <= i <= v.len(),
            line_end_from(v@, i as int) == line_end_from(v@, from as int),
        decreases v.len() - i,
    {
        i += 1;
    }
    i
}

fn has_custom_tail(v: &Vec<char>, c: usize) -> (b: bool)
    requires
        c < v.len(),
    ensures
        b == custom_tail_at(v@, c as int),
{
    if v[c] != ':' {
        return false;
    }
    let m = find_digit_end(v, c + 1);
    m > c + 1 && m < v.len() && v[m] == '>'
}

fn find_custom_tail(v: &Vec<char>, lo: usize, hi: usize) -> (r: Option<usize>)
    requires
        hi < v.len(),
    ensures
        match last_custom_tail(v@, lo as int, hi as int) {
            Some(c) => r == Some(c as usize) && lo <= c <= hi && custom_tail_at(v@, c),
            None => r is None,
        },
{
    let mut c = hi;
    loop
        invariant
            c <= hi < v.len(),
            last_custom_tail(v@, lo as int, c as int) == last_custom_tail(v@, lo as int, hi as int),
        decreases c,
    {
        if c < lo {
            return None;
        }
        if has_custom_tail(v, c) {
            return Some(c);
        }
        if c == 0 {
            assert(last_custom_tail(v@, lo as int, -1) is None);
            return None;
        }
        c -= 1;
    }
}

/// The value of the digits `v[a..b]`, if it fits in a `u64` (`str::parse::<u64>`).
pub fn parse_digits_pub(v: &Vec<char>, a: usize, b: usize) -> (r: Option<u64>)
    requires
        a <= b <= v.len(),
        forall|k: int| a <= k < b ==> is_digit(v@[k]),
    ensures
        match r {
            Some(n) => digits_value(v@.subrange(a as int, b as int)) <= u64::MAX && n
                == digits_value(v@.subrange(a as int, b as int)),
            None => digits_value(v@.subrange(a as int, b as int)) > u64::MAX,
        },
{
    let mut acc: u64 = 0;
    let mut i = a;
    assert(v@.subrange(a as int, a as int) =~= Seq::<char>::empty());
    while i < b
        invariant
            a <= i <= b <= v.len(),
            forall|k: int| a <= k < b ==> is_digit(v@[k]),
            acc == digits_value(v@.subrange(a as int, i as int)),
        decreases b - i,
    {
        let ghost pre = v@.subrange(a as int, i as int);
        assert(v@.subrange(a as int, i + 1).drop_last() =~= pre);
        assert(v@.subrange(a as int, i + 1).last() == v@[i as int]);
        let d = (v[i] as u32 - '0' as u32) as u64;
        assert(d <= 9);
        if acc > (u64::MAX - d) / 10 {
            proof {
                lemma_digits_value_grows(v@.subrange(a as int, b as int), (i + 1 - a) as int);
                assert(v@.subrange(a as int, b as int).take(i + 1 - a) =~= v@.subrange(
                    a as int,
                    i + 1,
                ));
                assert(digits_value(v@.subrange(a as int, i + 1)) == acc * 10 + d);
                assert(acc * 10 + d > u64::MAX) by (nonlinear_arith)
                    requires
                        acc > (u64::MAX - d) / 10,
                        d <= 9,
                ;
            }
            return None;
        }
        assert(acc * 10 + d <= u64::MAX) by (nonlinear_arith)
            requires
                acc <= (u64::MAX - d) / 10,
                d <= 9,
        ;
        acc = acc * 10 + d;
        i += 1;
    }
    Some(acc)
}

/// A prefix of digits is worth no more than the whole.
proof fn lemma_digits_value_grows(s: Seq<char>, k: int)
    requires
        0 <= k <= s.len(),
    ensures
        digits_value(s.take(k)) <= digits_value(s),
    decreases s.len() - k,
{
    if k < s.len() {
        lemma_digits_value_grows(s, k + 1);
        assert(s.take(k + 1).drop_last() =~= s.take(k));
    } else {
        assert(s.take(k) =~= s);
    }
}

impl<'a> Reaction<'a> {
    /// Reads a reaction from the input line: `+` adds and `-` removes; the
    /// emoji is `<:name:id>` for a custom one, `:name:` for a shortcode, or
    /// the rest of the line; a leading digit names the message, counting back
    /// from the last one.
    pub fn parse(input: &'a str) -> (r: Option<Reaction<'a>>)
        requires
            !reaction_is_lone_colon(input@),
        ensures
            match r {
                Some(x) => reaction_of(input@) == Some(x@),
                None => reaction_of(input@) is None,
            },
    {
        let v = to_chars(input);
        let p: usize = if v.len() > 0 && char_is_digit(v[0]) {
            1
        } else {
            0
        };
        if !(v.len() > p && (v[p] == '+' || v[p] == '-')) {
            return None;
        }
        let add = v[p] == '+';
        let start = p + 1;
        let custom = if v.len() > start + 1 && v[start] == '<' && v[start + 1] == ':' {
            let le = find_line_end(&v, start + 2);
            if le >= 1 {
                find_custom_tail(&v, start + 3, le - 1)
            } else {
                None
            }
        } else {
            None
        };
        let line: usize = if p == 1 {
            let d = v[0] as u32 - '0' as u32;
            d as usize
        } else {
            1
        };
        let (b, id) = match custom {
            Some(c) => {
                let m = find_digit_end(&v, c + 1);
                proof {
                    assert forall|k: int| c + 1 <= k < m implies is_digit(v@[k]) by {
                        lemma_digit_run(v@, c + 1, k);
                    }
                }
                (m + 1, parse_digits_pub(&v, c + 1, m))
            },
            None => (find_line_end(&v, start), None),
        };
        let emoji = input.substring_char(start, b);
        let e = match id {
            Some(n) => Emoji::Custom(emoji, n),
            None => {
                if b > start && v[start] == ':' && v[b - 1] == ':' {
                    Emoji::Shortcode(input.substring_char(start + 1, b - 1))
                } else {
                    Emoji::Unicode(emoji)
                }
            },
        };
        proof {
            assert(emoji@ == v@.subrange(start as int, b as int));
            assert(v@ == input@);
            let rm = reaction_match(input@);
            assert(rm is Some);
            assert(rm->Some_0.0 == add);
            assert(rm->Some_0.1 == start as int);
            assert(rm->Some_0.2 == b as int);
            assert(line as int == line_of(input@));
            let em = input@.subrange(start as int, b as int);
            if b > start {
                assert(em[0] == v@[start as int]);
                assert(em.last() == v@[b - 1]);
            }
            if b >= start + 2 {
                assert(em.subrange(1, em.len() - 1) =~= input@.subrange(start + 1, b - 1));
            }
        }
        Some(Reaction { add, emoji: e, line })
    }
}

/// Whether `input` is a reaction whose emoji is a lone `:`, which cannot
/// be read as a reaction.
pub fn is_lone_colon_reaction(input: &str) -> (b: bool)
    ensures
        b == reaction_is_lone_colon(input@),
{
    let v = to_chars(input);
    let p: usize = if v.len() > 0 && char_is_digit(v[0]) {
        1
    } else {
        0
    };
    if !(v.len() > p && (v[p] == '+' || v[p] == '-')) {
        return false;
    }
    let start = p + 1;
    let custom = if v.len() > start + 1 && v[start] == '<' && v[start + 1] == ':' {
        let le = find_line_end(&v, start + 2);
        if le >= 1 {
            find_custom_tail(&v, start + 3, le - 1)
        } else {
            None
        }
    } else {
        None
    };
    let b = match custom {
        Some(c) => find_digit_end(&v, c + 1) + 1,
        None => find_line_end(&v, start),
    };
    proof {
        assert(v@ == input@);
        let rm = reaction_match(input@);
        assert(rm is Some);
        assert(rm->Some_0.1 == start as int);
        assert(rm->Some_0.2 == b as int);
    }
    if !(b == start + 1 && v[start] == ':') {
        return false;
    }
    match custom {
        Some(c) => {
            let m = find_digit_end(&v, c + 1);
            proof {
                assert forall|k: int| c + 1 <= k < m implies is_digit(v@[k]) by {
                    lemma_digit_run(v@, c + 1, k);
                }
            }
            parse_digits_pub(&v, c + 1, m).is_none()
        },
        None => true,
    }
}

/// Every character before the end of a digit run is a digit.
proof fn lemma_digit_run(s: Seq<char>, i: int, k: int)
    requires
        0 <= i <= k < digit_end(s, i),
    ensures
        is_digit(s[k]),
    decreases k - i,
{
    if k > i {
        lemma_digit_run(s, i + 1, k);
    }
}

/// Plain text for an edit: no slash, backslash or line break.
pub open spec fn plain_edit_text(x: Seq<char>) -> bool {
    forall|k: int| 0 <= k < x.len() ==> x[k] != '/' && x[k] != '\\' && x[k] != '\n'
}

/// The text typed for `s/old/new/`.
pub open spec fn typed_sub(old: Seq<char>, new: Seq<char>) -> Seq<char> {
    seq!['s', '/'] + old + seq!['/'] + new + seq!['/']
}

proof fn lemma_scan_new_plain(s: Seq<char>, e: int, end: int)
    requires
        1 <= e <= end < s.len(),
        s[end] == '/',
        forall|k: int| e - 1 <= k < end ==> s[k] != '/' || k == e - 1,
        forall|k: int| e - 1 <= k < end ==> s[k] != '\\' && s[k] != '\n',
    ensures
        scan_new(s, e) == Some(end),
    decreases end - e,
{
    if e < end {
        assert(s[e] != '/' && s[e] != '\n');
        lemma_scan_new_plain(s, e + 1, end);
    }
}

proof fn lemma_scan_old_plain(s: Seq<char>, e: int, end: int)
    requires
        1 <= e <= end < s.len(),
        s[end] == '/',
        s[end - 1] != '\\',
        scan_new(s, end + 1) is Some,
        forall|k: int| e <= k < end ==> s[k] != '/' && s[k] != '\n',
    ensures
        scan_old(s, e) == Some(end),
    decreases end - e,
{
    if e < end {
        lemma_scan_old_plain(s, e + 1, end);
    }
}

/// `s/old/new/`, with a non-empty searched text and texts free of slashes,
/// backslashes and line breaks, edits the last own message: it replaces
/// `old` by `new`, even where `new` is empty. Only `s//` deletes.
pub proof fn law_typed_substitution(old: Seq<char>, new: Seq<char>)
    requires
        old.len() >= 1,
        plain_edit_text(old),
        plain_edit_text(new),
    ensures
        line_edit_of(typed_sub(old, new)) == Some(
            LineEditView::Sub { line: 1, old, new, options: None },
        ),
{
    let s = typed_sub(old, new);
    let n = old.len() as int;
    let m = new.len() as int;
    assert(s.len() == n + m + 4);
    assert(s[0] == 's' && s[1] == '/');
    assert(s[n + 2] == '/');
    assert(s[n + m + 3] == '/');
    assert forall|k: int| 2 <= k < n + 2 implies s[k] == old[k - 2] by {}
    assert forall|k: int| n + 3 <= k < n + m + 3 implies s[k] == new[k - n - 3] by {}
    assert(s[n + 1] == old[n - 1]);
    assert(!is_digit(s[0]));
    assert(digit_prefix(s) == 0);
    lemma_scan_new_plain(s, n + 3, n + m + 3);
    lemma_scan_old_plain(s, 2, n + 2);
    assert(word_end(s, n + m + 4) == n + m + 4);
    assert(edit_match(s) == Some((2int, n + 2, n + 3, n + m + 3, n + m + 4, n + m + 4)));
    assert(s.subrange(2, n + 2) =~= old);
    assert(s.subrange(n + 3, n + m + 3) =~= new);
}

/// `s//` deletes the last own message.
pub proof fn law_typed_deletion()
    ensures
        line_edit_of(seq!['s', '/', '/']) == Some(LineEditView::Delete { line: 1 }),
{
    let s = seq!['s', '/', '/'];
    assert(!is_digit(s[0]));
    assert(scan_new(s, 3) == Some(3int));
    assert(scan_old(s, 2) == Some(2int));
    assert(word_end(s, 3) == 3);
}

} // verus!
