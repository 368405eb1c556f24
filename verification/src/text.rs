//! Character-level string helpers shared by the formatting code.
//!
//! Strings are modelled by their view, the sequence of their characters.
//! Byte offsets, where the plugin reports them, are the lengths of the UTF-8
//! encodings of character prefixes.
use vstd::prelude::*;
use vstd::string::StringExecFns;
use vstd::utf8::*;

verus! {

/// The texts of a list of strings.
pub open spec fn texts(v: Seq<String>) -> Seq<Seq<char>> {
    v.map_values(|s: String| s@)
}

/// `String::push`: the contract claims that the string's characters become
/// the old ones followed by `c`.
#[verifier::external_body]
pub(crate) fn push_char(s: &mut String, c: char)
    ensures
        final(s)@ == old(s)@.push(c),
{
    s.push(c);
}

/// Appends a string slice to a string.
pub fn push_str(s: &mut String, t: &str)
    ensures
        final(s)@ == old(s)@ + t@,
{
    s.append(t);
}

/// The characters of `s`, in order.
pub fn to_chars(s: &str) -> (v: Vec<char>)
    ensures
        v@ == s@,
{
    let mut v: Vec<char> = Vec::new();
    for c in it: s.chars()
        invariant
            v@ == it.seq().take(it.index() as int),
            it.seq() == s@,
    {
        v.push(c);
    }
    v
}

/// The string made of the characters `v[from..to]`.
pub fn string_of(v: &Vec<char>, from: usize, to: usize) -> (s: String)
    requires
        from <= to <= v.len(),
    ensures
        s@ == v@.subrange(from as int, to as int),
{
    let mut s = String::new();
    let mut i = from;
    while i < to
        invariant
            from <= i <= to <= v.len(),
            s@ == v@.subrange(from as int, i as int),
        decreases to - i,
    {
        push_char(&mut s, v[i]);
        i += 1;
    }
    s
}

/// The string made of all the characters of `v`.
pub fn string_of_all(v: &Vec<char>) -> (s: String)
    ensures
        s@ == v@,
{
    let s = string_of(v, 0, v.len());
    assert(v@.subrange(0, v@.len() as int) =~= v@);
    s
}

/// A copy of a string.
pub fn copy_string(s: &String) -> (r: String)
    ensures
        r@ == s@,
{
    let mut r = String::new();
    push_str(&mut r, s.as_str());
    r
}

/// Number of bytes in the UTF-8 encoding of `s`.
pub open spec fn byte_len(s: Seq<char>) -> nat {
    encode_utf8(s).len()
}

/// The UTF-8 encoding of a concatenation is the concatenation of the encodings.
pub proof fn lemma_encode_concat(a: Seq<char>, b: Seq<char>)
    ensures
        encode_utf8(a + b) == encode_utf8(a) + encode_utf8(b),
    decreases a.len(),
{
    if a.len() == 0 {
        assert(a + b =~= b);
    } else {
        assert((a + b).drop_first() =~= a.drop_first() + b);
        lemma_encode_concat(a.drop_first(), b);
        assert(encode_utf8(a) + encode_utf8(b) =~= encode_scalar(a[0] as u32) + (encode_utf8(
            a.drop_first(),
        ) + encode_utf8(b)));
    }
}

/// Byte length of a single character.
pub open spec fn char_bytes(c: char) -> nat {
    encode_scalar(c as u32).len()
}

pub proof fn lemma_byte_len_push(s: Seq<char>, c: char)
    ensures
        byte_len(s.push(c)) == byte_len(s) + char_bytes(c),
{
    lemma_encode_concat(s, seq![c]);
    assert(s.push(c) =~= s + seq![c]);
    assert(seq![c].drop_first() =~= Seq::<char>::empty());
    assert(encode_utf8(seq![c]) =~= encode_scalar(c as u32) + encode_utf8(Seq::<char>::empty()));
}

pub proof fn lemma_byte_len_concat(a: Seq<char>, b: Seq<char>)
    ensures
        byte_len(a + b) == byte_len(a) + byte_len(b),
{
    lemma_encode_concat(a, b);
}

/// The number of bytes `c` takes in UTF-8 (`char::len_utf8`).
pub fn char_width(c: char) -> (n: usize)
    ensures
        n == char_bytes(c),
        1 <= n <= 4,
{
    let v = c as u32;
    proof {
        vstd::utf8::char_is_scalar(c);
    }
    if v <= 0x7F {
        1
    } else if v <= 0x7FF {
        2
    } else if v <= 0xFFFF {
        3
    } else {
        4
    }
}

/// `pat` occurs in `s` starting at character position `i`.
pub open spec fn occurs_at(s: Seq<char>, pat: Seq<char>, i: int) -> bool {
    0 <= i && i + pat.len() <= s.len() && s.subrange(i, i + pat.len()) == pat
}

/// The first character position at which `pat` occurs in `s`, if any (`str::find`).
#[verifier::opaque]
pub open spec fn first_occurrence(s: Seq<char>, pat: Seq<char>) -> Option<int> {
    if exists|i: int| occurs_at(s, pat, i) {
        Some(choose|i: int| occurs_at(s, pat, i) && forall|j: int| 0 <= j < i ==> !occurs_at(s, pat, j))
    } else {
        None
    }
}

/// Whether `pat` occurs in `v` at position `i`.
pub fn matches_at(v: &Vec<char>, pat: &Vec<char>, i: usize) -> (b: bool)
    requires
        i <= v.len(),
    ensures
        b == occurs_at(v@, pat@, i as int),
{
    if pat.len() > v.len() - i {
        return false;
    }
    let mut k: usize = 0;
    while k < pat.len()
        invariant
            i + pat.len() <= v.len(),
            k <= pat.len(),
            forall|j: int| 0 <= j < k ==> v@[i + j] == pat@[j],
        decreases pat.len() - k,
    {
        if v[i + k] != pat[k] {
            assert(v@.subrange(i as int, i + pat.len())[k as int] != pat@[k as int]);
            return false;
        }
        k += 1;
    }
    assert(v@.subrange(i as int, i + pat.len()) =~= pat@);
    true
}

/// The first position at which `pat` occurs in `v`, searching from `from`.
pub fn find_from(v: &Vec<char>, pat: &Vec<char>, from: usize) -> (r: Option<usize>)
    requires
        from <= v.len(),
    ensures
        match r {
            Some(i) => from <= i && occurs_at(v@, pat@, i as int) && forall|j: int|
                from <= j < i ==> !occurs_at(v@, pat@, j),
            None => forall|j: int| from <= j ==> !occurs_at(v@, pat@, j),
        },
{
    let mut i = from;
    while i < v.len()
        invariant
            from <= i <= v.len(),
            forall|j: int| from <= j < i ==> !occurs_at(v@, pat@, j),
        decreases v.len() - i,
    {
        if matches_at(v, pat, i) {
            return Some(i);
        }
        i += 1;
    }
    if matches_at(v, pat, i) {
        return Some(i);
    }
    assert forall|j: int| from <= j implies !occurs_at(v@, pat@, j) by {
        if j > v.len() {
            assert(!occurs_at(v@, pat@, j));
        }
    }
    None
}

/// The first position at which `pat` occurs in `v` (`str::find`, counted in characters).
pub fn find_chars(v: &Vec<char>, pat: &Vec<char>) -> (r: Option<usize>)
    ensures
        match r {
            Some(i) => first_occurrence(v@, pat@) == Some(i as int) && occurs_at(
                v@,
                pat@,
                i as int,
            ),
            None => first_occurrence(v@, pat@) is None,
        },
{
    reveal(first_occurrence);
    let r = find_from(v, pat, 0);
    match r {
        Some(i) => {
            assert(occurs_at(v@, pat@, i as int));
            let ghost c = choose|k: int|
                occurs_at(v@, pat@, k) && forall|j: int| 0 <= j < k ==> !occurs_at(v@, pat@, j);
            assert(occurs_at(v@, pat@, c) && forall|j: int| 0 <= j < c ==> !occurs_at(v@, pat@, j));
            proof {
                if c < i as int {
                    assert(!occurs_at(v@, pat@, c));
                }
                if (i as int) < c {
                    assert(!occurs_at(v@, pat@, i as int));
                }
            }
        },
        None => {},
    }
    r
}

/// `rep` before, between and after the characters of `s` (what replacing an empty pattern gives).
pub open spec fn interleave(s: Seq<char>, rep: Seq<char>) -> Seq<char>
    decreases s.len(),
{
    if s.len() == 0 {
        rep
    } else {
        rep + seq![s[0]] + interleave(s.drop_first(), rep)
    }
}

/// `str::replace`: every non-overlapping occurrence of `pat`, from left to right, replaced by `rep`.
pub open spec fn replace_all(s: Seq<char>, pat: Seq<char>, rep: Seq<char>) -> Seq<char>
    decreases s.len(),
{
    if pat.len() == 0 {
        interleave(s, rep)
    } else if s.len() < pat.len() {
        s
    } else if s.take(pat.len() as int) == pat {
        rep + replace_all(s.skip(pat.len() as int), pat, rep)
    } else {
        seq![s[0]] + replace_all(s.drop_first(), pat, rep)
    }
}

/// `str::replacen(pat, rep, 1)`: the first occurrence of `pat` replaced by `rep`.
pub open spec fn replace_first(s: Seq<char>, pat: Seq<char>, rep: Seq<char>) -> Seq<char> {
    match first_occurrence(s, pat) {
        Some(i) => s.take(i) + rep + s.skip(i + pat.len()),
        None => s,
    }
}

proof fn lemma_skip_step(s: Seq<char>, i: int)
    requires
        0 <= i < s.len(),
    ensures
        s.skip(i)[0] == s[i],
        s.skip(i).drop_first() == s.skip(i + 1),
{
    assert(s.skip(i).drop_first() =~= s.skip(i + 1));
}

proof fn lemma_match_step(s: Seq<char>, pat: Seq<char>, i: int)
    requires
        0 <= i <= s.len(),
        pat.len() > 0,
    ensures
        occurs_at(s, pat, i) <==> (s.skip(i).len() >= pat.len() && s.skip(i).take(
            pat.len() as int,
        ) == pat),
        occurs_at(s, pat, i) ==> s.skip(i).skip(pat.len() as int) == s.skip(i + pat.len()),
{
    if i + pat.len() <= s.len() {
        assert(s.skip(i).take(pat.len() as int) =~= s.subrange(i, i + pat.len()));
        assert(s.skip(i).skip(pat.len() as int) =~= s.skip(i + pat.len()));
    }
}

proof fn lemma_replace_short(t: Seq<char>, pat: Seq<char>, rep: Seq<char>)
    requires
        pat.len() > 0,
        t.len() < pat.len(),
    ensures
        replace_all(t, pat, rep) == t,
{
}

/// Replaces every occurrence of a non-empty `pat` in `v[from..]`.
fn replace_nonempty(v: &Vec<char>, pat: &Vec<char>, rep: &str) -> (out: String)
    requires
        pat.len() > 0,
    ensures
        out@ == replace_all(v@, pat@, rep@),
{
    let mut out = String::new();
    let mut i: usize = 0;
    assert(v@.skip(0) =~= v@);
    assert(Seq::<char>::empty() + replace_all(v@, pat@, rep@) =~= replace_all(v@, pat@, rep@));
    while i < v.len()
        invariant
            pat.len() > 0,
            i <= v.len(),
            out@ + replace_all(v@.skip(i as int), pat@, rep@) == replace_all(v@, pat@, rep@),
        decreases v.len() - i,
    {
        proof {
            lemma_match_step(v@, pat@, i as int);
            lemma_skip_step(v@, i as int);
        }
        let ghost t = v@.skip(i as int);
        if matches_at(v, pat, i) {
            assert(replace_all(t, pat@, rep@) == rep@ + replace_all(v@.skip(i + pat.len()), pat@, rep@));
            push_str(&mut out, rep);
            assert(out@ + replace_all(v@.skip(i + pat.len()), pat@, rep@) =~= replace_all(v@, pat@, rep@));
            i = i + pat.len();
        } else {
            proof {
                if t.len() < pat@.len() {
                    lemma_replace_short(t, pat@, rep@);
                    lemma_replace_short(t.drop_first(), pat@, rep@);
                    assert(t =~= seq![t[0]] + t.drop_first());
                }
            }
            assert(replace_all(t, pat@, rep@) == seq![v@[i as int]] + replace_all(v@.skip(i + 1), pat@, rep@));
            push_char(&mut out, v[i]);
            assert(out@ + replace_all(v@.skip(i + 1), pat@, rep@) =~= replace_all(v@, pat@, rep@));
            i = i + 1;
        }
    }
    assert(v@.skip(i as int) =~= Seq::<char>::empty());
    assert(out@ + Seq::<char>::empty() =~= out@);
    out
}

/// Replacing the empty pattern: `rep` around every character.
fn replace_empty(v: &Vec<char>, rep: &str) -> (out: String)
    ensures
        out@ == interleave(v@, rep@),
{
    let mut out = String::new();
    let mut i: usize = 0;
    assert(v@.skip(0) =~= v@);
    assert(Seq::<char>::empty() + interleave(v@, rep@) =~= interleave(v@, rep@));
    while i < v.len()
        invariant
            i <= v.len(),
            out@ + interleave(v@.skip(i as int), rep@) == interleave(v@, rep@),
        decreases v.len() - i,
    {
        proof {
            lemma_skip_step(v@, i as int);
        }
        push_str(&mut out, rep);
        push_char(&mut out, v[i]);
        assert(out@ + interleave(v@.skip(i + 1), rep@) =~= interleave(v@, rep@));
        i = i + 1;
    }
    assert(v@.skip(i as int) =~= Seq::<char>::empty());
    push_str(&mut out, rep);
    out
}

/// `s.replace(pat, rep)`.
pub fn replace_str(s: &str, pat: &str, rep: &str) -> (out: String)
    ensures
        out@ == replace_all(s@, pat@, rep@),
{
    let v = to_chars(s);
    let p = to_chars(pat);
    if p.len() == 0 {
        replace_empty(&v, rep)
    } else {
        replace_nonempty(&v, &p, rep)
    }
}

/// `s.replacen(pat, rep, 1)`.
pub fn replace_first_str(s: &str, pat: &str, rep: &str) -> (out: String)
    ensures
        out@ == replace_first(s@, pat@, rep@),
{
    let v = to_chars(s);
    let p = to_chars(pat);
    match find_chars(&v, &p) {
        Some(i) => {
            let mut out = string_of(&v, 0, i);
            push_str(&mut out, rep);
            let rest = string_of(&v, i + p.len(), v.len());
            push_str(&mut out, rest.as_str());
            assert(v@.take(i as int) =~= v@.subrange(0, i as int));
            assert(v@.skip(i + p.len()) =~= v@.subrange(i + p.len(), v.len() as int));
            out
        },
        None => string_of_all(&v),
    }
}

/// Byte length of the first `n` characters of a string no longer than `usize::MAX` bytes.
pub fn prefix_bytes(v: &Vec<char>, n: usize) -> (r: usize)
    requires
        n <= v.len(),
        byte_len(v@) <= usize::MAX,
    ensures
        r == byte_len(v@.take(n as int)),
{
    let mut r: usize = 0;
    let mut i: usize = 0;
    proof {
        assert(v@.take(0) =~= Seq::<char>::empty());
        lemma_byte_len_concat(v@.take(n as int), v@.skip(n as int));
        assert(v@.take(n as int) + v@.skip(n as int) =~= v@);
    }
    while i < n
        invariant
            i <= n <= v.len(),
            byte_len(v@.take(n as int)) <= usize::MAX,
            r == byte_len(v@.take(i as int)),
        decreases n - i,
    {
        proof {
            assert(v@.take(i + 1) =~= v@.take(i as int).push(v@[i as int]));
            lemma_byte_len_push(v@.take(i as int), v@[i as int]);
            lemma_byte_len_concat(v@.take(i + 1), v@.take(n as int).skip(i + 1));
            assert(v@.take(i + 1) + v@.take(n as int).skip(i + 1) =~= v@.take(n as int));
        }
        r = r + char_width(v[i]);
        i += 1;
    }
    r
}

/// Every character takes at least one byte.
pub proof fn lemma_char_bytes_pos(c: char)
    ensures
        1 <= char_bytes(c) <= 4,
{
    vstd::utf8::char_is_scalar(c);
}

/// A string takes at least as many bytes as it has characters.
pub proof fn lemma_byte_len_ge(s: Seq<char>)
    ensures
        byte_len(s) >= s.len(),
    decreases s.len(),
{
    if s.len() > 0 {
        lemma_byte_len_ge(s.drop_last());
        assert(s =~= s.drop_last().push(s.last()));
        lemma_byte_len_push(s.drop_last(), s.last());
        lemma_char_bytes_pos(s.last());
    }
}

/// The character position at which byte offset `a` falls on a character
/// boundary of `t`, if it does (`str::is_char_boundary`).
pub open spec fn char_at_byte(t: Seq<char>, a: int) -> Option<int>
    decreases t.len(),
{
    if a == 0 {
        Some(0)
    } else if t.len() == 0 || a < 0 {
        None
    } else {
        match char_at_byte(t.drop_first(), a - char_bytes(t[0])) {
            Some(k) => Some(k + 1),
            None => None,
        }
    }
}

proof fn lemma_byte_len_cons(c: char, s: Seq<char>)
    ensures
        byte_len(seq![c] + s) == char_bytes(c) + byte_len(s),
{
    lemma_byte_len_concat(seq![c], s);
    lemma_byte_len_push(Seq::<char>::empty(), c);
    assert(Seq::<char>::empty().push(c) =~= seq![c]);
    assert(encode_utf8(Seq::<char>::empty()) =~= Seq::<u8>::empty());
}

/// [`char_at_byte`] finds exactly the prefix whose encoding is `a` bytes long.
pub proof fn lemma_char_at_byte(t: Seq<char>, a: int, k: int)
    ensures
        char_at_byte(t, a) == Some(k) <==> (0 <= k <= t.len() && byte_len(t.take(k)) == a),
    decreases t.len(),
{
    if 0 <= k <= t.len() {
        lemma_byte_len_ge(t.take(k));
    }
    if a == 0 {
        assert(t.take(0) =~= Seq::<char>::empty());
        assert(encode_utf8(Seq::<char>::empty()) =~= Seq::<u8>::empty());
    } else if t.len() == 0 || a < 0 {
    } else {
        let c = t[0];
        let r = t.drop_first();
        lemma_char_at_byte(r, a - char_bytes(c), k - 1);
        if 1 <= k <= t.len() {
            assert(t.take(k) =~= seq![c] + r.take(k - 1));
            lemma_byte_len_cons(c, r.take(k - 1));
        }
        if k == 0 {
            assert(t.take(0) =~= Seq::<char>::empty());
            assert(encode_utf8(Seq::<char>::empty()) =~= Seq::<u8>::empty());
        }
        match char_at_byte(r, a - char_bytes(c)) {
            Some(j) => {
                lemma_char_at_byte(r, a - char_bytes(c), j);
            },
            None => {},
        }
    }
}

/// The characters between byte offsets `a` and `b` of `t` (`str::get(a..b)`,
/// empty where that gives nothing).
pub open spec fn cut(t: Seq<char>, a: int, b: int) -> Seq<char> {
    match (char_at_byte(t, a), char_at_byte(t, b)) {
        (Some(i), Some(j)) => if i <= j {
            t.subrange(i, j)
        } else {
            seq![]
        },
        _ => seq![],
    }
}

/// `text.get(a..b).unwrap_or_default()`.
pub fn cut_bytes(text: &str, a: usize, b: usize) -> (r: String)
    requires
        byte_len(text@) <= usize::MAX,
    ensures
        r@ == cut(text@, a as int, b as int),
{
    let v = to_chars(text);
    let mut ia: Option<usize> = None;
    let mut ib: Option<usize> = None;
    let mut pos: usize = 0;
    let mut k: usize = 0;
    proof {
        assert(v@.take(0) =~= Seq::<char>::empty());
        assert(encode_utf8(Seq::<char>::empty()) =~= Seq::<u8>::empty());
    }
    while k < v.len()
        invariant
            k <= v.len(),
            v@ == text@,
            byte_len(v@) <= usize::MAX,
            pos == byte_len(v@.take(k as int)),
            match ia {
                Some(x) => x < k && byte_len(v@.take(x as int)) == a,
                None => forall|j: int| 0 <= j < k ==> byte_len(v@.take(j)) != a,
            },
            match ib {
                Some(x) => x < k && byte_len(v@.take(x as int)) == b,
                None => forall|j: int| 0 <= j < k ==> byte_len(v@.take(j)) != b,
            },
        decreases v.len() - k,
    {
        if pos == a {
            ia = Some(k);
        }
        if pos == b {
            ib = Some(k);
        }
        proof {
            assert(v@.take(k + 1) =~= v@.take(k as int).push(v@[k as int]));
            lemma_byte_len_push(v@.take(k as int), v@[k as int]);
            lemma_byte_len_concat(v@.take(k + 1), v@.skip(k + 1));
            assert(v@.take(k + 1) + v@.skip(k + 1) =~= v@);
        }
        pos = pos + char_width(v[k]);
        k += 1;
    }
    if pos == a {
        ia = Some(k);
    }
    if pos == b {
        ib = Some(k);
    }
    assert(v@.take(v.len() as int) =~= v@);
    proof {
        match ia {
            Some(x) => lemma_char_at_byte(v@, a as int, x as int),
            None => {
                if char_at_byte(v@, a as int) is Some {
                    lemma_char_at_byte(v@, a as int, char_at_byte(v@, a as int)->Some_0);
                }
            },
        }
        match ib {
            Some(x) => lemma_char_at_byte(v@, b as int, x as int),
            None => {
                if char_at_byte(v@, b as int) is Some {
                    lemma_char_at_byte(v@, b as int, char_at_byte(v@, b as int)->Some_0);
                }
            },
        }
    }
    match (ia, ib) {
        (Some(x), Some(y)) => {
            if x <= y {
                string_of(&v, x, y)
            } else {
                String::new()
            }
        },
        _ => String::new(),
    }
}

/// Unicode's White_Space characters (`char::is_whitespace`).
pub open spec fn is_space(c: char) -> bool {
    ('\u{9}' <= c && c <= '\u{d}') || c == ' ' || c == '\u{85}' || c == '\u{a0}' || c == '\u{1680}'
        || ('\u{2000}' <= c && c <= '\u{200a}') || c == '\u{2028}' || c == '\u{2029}' || c
        == '\u{202f}' || c == '\u{205f}' || c == '\u{3000}'
}

/// Whether `c` is white space.
pub fn char_is_space(c: char) -> (b: bool)
    ensures
        b == is_space(c),
{
    ('\u{9}' <= c && c <= '\u{d}') || c == ' ' || c == '\u{85}' || c == '\u{a0}' || c == '\u{1680}'
        || ('\u{2000}' <= c && c <= '\u{200a}') || c == '\u{2028}' || c == '\u{2029}' || c
        == '\u{202f}' || c == '\u{205f}' || c == '\u{3000}'
}

/// How many characters at the start of `s` satisfy the test (from `i` on).
pub open spec fn lead_len(s: Seq<char>, i: int, space: bool, q: char) -> int
    decreases s.len() - i,
{
    if i < 0 || i >= s.len() || !(if space {
        is_space(s[i])
    } else {
        s[i] == q
    }) {
        i
    } else {
        lead_len(s, i + 1, space, q)
    }
}

/// How many characters are kept before a run at the end that satisfies the test.
pub open spec fn trail_len(s: Seq<char>, j: int, lo: int, space: bool, q: char) -> int
    decreases j - lo,
{
    if j <= lo || !(if space {
        is_space(s[j - 1])
    } else {
        s[j - 1] == q
    }) {
        j
    } else {
        trail_len(s, j - 1, lo, space, q)
    }
}

/// `s` without the white space at its start (`str::trim_start`).
pub open spec fn trimmed_start(s: Seq<char>) -> Seq<char> {
    s.skip(lead_len(s, 0, true, ' '))
}

/// `s` without white space at either end (`str::trim`).
pub open spec fn trimmed(s: Seq<char>) -> Seq<char> {
    let a = lead_len(s, 0, true, ' ');
    s.subrange(a, trail_len(s, s.len() as int, a, true, ' '))
}

/// `s` without the character `q` at either end (`str::trim_matches`).
pub open spec fn trimmed_of(s: Seq<char>, q: char) -> Seq<char> {
    let a = lead_len(s, 0, false, q);
    s.subrange(a, trail_len(s, s.len() as int, a, false, q))
}

proof fn lemma_lead_bounds(s: Seq<char>, i: int, space: bool, q: char)
    requires
        0 <= i <= s.len(),
    ensures
        i <= lead_len(s, i, space, q) <= s.len(),
    decreases s.len() - i,
{
    if i < s.len() {
        lemma_lead_bounds(s, i + 1, space, q);
    }
}

proof fn lemma_trail_bounds(s: Seq<char>, j: int, lo: int, space: bool, q: char)
    requires
        0 <= lo <= j <= s.len(),
    ensures
        lo <= trail_len(s, j, lo, space, q) <= j,
    decreases j - lo,
{
    if j > lo {
        lemma_trail_bounds(s, j - 1, lo, space, q);
    }
}

fn matches_test(c: char, space: bool, q: char) -> (b: bool)
    ensures
        b == (if space {
            is_space(c)
        } else {
            c == q
        }),
{
    if space {
        char_is_space(c)
    } else {
        c == q
    }
}

/// The bounds of what trimming keeps.
fn trim_bounds(v: &Vec<char>, space: bool, q: char, front: bool) -> (r: (usize, usize))
    ensures
        r.0 == (if front {
            lead_len(v@, 0, space, q)
        } else {
            0
        }),
        r.1 == trail_len(v@, v@.len() as int, r.0 as int, space, q),
        r.0 <= r.1 <= v.len(),
{
    let mut a: usize = 0;
    if front {
        proof {
            lemma_lead_bounds(v@, 0, space, q);
        }
        while a < v.len() && matches_test(v[a], space, q)
            invariant
                a <= v.len(),
                lead_len(v@, a as int, space, q) == lead_len(v@, 0, space, q),
            decreases v.len() - a,
        {
            a += 1;
        }
    }
    let mut b: usize = v.len();
    proof {
        lemma_trail_bounds(v@, v@.len() as int, a as int, space, q);
    }
    while b > a && matches_test(v[b - 1], space, q)
        invariant
            a <= b <= v.len(),
            trail_len(v@, b as int, a as int, space, q) == trail_len(v@, v@.len() as int, a as int, space, q),
        decreases b,
    {
        b -= 1;
    }
    (a, b)
}

/// `s.trim()`.
pub fn trim(s: &str) -> (r: String)
    ensures
        r@ == trimmed(s@),
{
    let v = to_chars(s);
    let (a, b) = trim_bounds(&v, true, ' ', true);
    string_of(&v, a, b)
}

/// `s.trim_start()`.
pub fn trim_start(s: &str) -> (r: String)
    ensures
        r@ == trimmed_start(s@),
{
    let v = to_chars(s);
    let (a, _) = trim_bounds(&v, true, ' ', true);
    assert(v@.skip(a as int) =~= v@.subrange(a as int, v@.len() as int));
    string_of(&v, a, v.len())
}

/// `s.trim_matches(q)`.
pub fn trim_matches(s: &str, q: char) -> (r: String)
    ensures
        r@ == trimmed_of(s@, q),
{
    let v = to_chars(s);
    let (a, b) = trim_bounds(&v, false, q, true);
    string_of(&v, a, b)
}

} // verus!
