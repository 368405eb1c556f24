//! Strings with nested styles, rendered to weechat's colour codes.
//!
//! A [`StyledString`] is a list of operations: switching a style on or off,
//! literal text, and line breaks. Weechat does not carry styles across a line
//! break, so rendering re-applies the active styles after each one.
use crate::style::{
    code_in, codes, lemma_last_index, lemma_style_lt_irrefl, lemma_unique, last_index,
    remove_last, strictly_sorted, style_name, uncodes, unique, unstyle_name, ColorTable, Style,
    StyleState, StyleView,
};
use crate::text::{
    byte_len, copy_string, cut, cut_bytes, find_chars, first_occurrence, lemma_byte_len_concat, prefix_bytes,
    push_char, push_str, to_chars,
};
use vstd::prelude::*;

verus! {

/// One step of a styled string.
#[derive(Clone, Debug, PartialEq, Eq)]
pub enum Op {
    PushStyle(Style),
    PopStyle(Style),
    Literal(String),
    Newline,
}

/// The mathematical value of an [`Op`].
pub enum OpView {
    Push(StyleView),
    Pop(StyleView),
    Literal(Seq<char>),
    Newline,
}

impl View for Op {
    type V = OpView;

    open spec fn view(&self) -> OpView {
        match self {
            Op::PushStyle(s) => OpView::Push(s@),
            Op::PopStyle(s) => OpView::Pop(s@),
            Op::Literal(t) => OpView::Literal(t@),
            Op::Newline => OpView::Newline,
        }
    }
}

impl Op {
    /// A copy of this operation.
    pub fn duplicate(&self) -> (o: Op)
        ensures
            o@ == self@,
    {
        match self {
            Op::PushStyle(s) => Op::PushStyle(s.duplicate()),
            Op::PopStyle(s) => Op::PopStyle(s.duplicate()),
            Op::Literal(t) => Op::Literal(copy_string(t)),
            Op::Newline => Op::Newline,
        }
    }
}

pub open spec fn ops_view(v: Seq<Op>) -> Seq<OpView> {
    v.map_values(|o: Op| o@)
}

/// Viewing a sequence with one more operation.
pub proof fn lemma_ops_view_push(v: Seq<Op>, o: Op)
    ensures
        ops_view(v).len() == v.len(),
        ops_view(v.push(o)) == ops_view(v).push(o@),
{
    assert(ops_view(v.push(o)) =~= ops_view(v).push(o@));
}

/// No character of `s` is a line break.
pub open spec fn no_newline(s: Seq<char>) -> bool {
    forall|i: int| 0 <= i < s.len() ==> s[i] != '\n'
}

/// Every literal is free of line breaks (line breaks are operations of their own).
pub open spec fn literals_clean(ops: Seq<OpView>) -> bool {
    forall|i: int| 0 <= i < ops.len() && ops[i] is Literal ==> no_newline(ops[i]->Literal_0)
}

/// The stack of active styles after running `ops`.
pub open spec fn stack_of(ops: Seq<OpView>) -> Seq<StyleView>
    decreases ops.len(),
{
    if ops.len() == 0 {
        seq![]
    } else {
        let st = stack_of(ops.drop_last());
        match ops.last() {
            OpView::Push(s) => st.push(s),
            OpView::Pop(s) => remove_last(st, s),
            _ => st,
        }
    }
}

/// Every style that is switched off is active at that point.
pub open spec fn balanced(ops: Seq<OpView>) -> bool
    decreases ops.len(),
{
    if ops.len() == 0 {
        true
    } else {
        balanced(ops.drop_last()) && match ops.last() {
            OpView::Pop(s) => stack_of(ops.drop_last()).contains(s),
            _ => true,
        }
    }
}

/// The styles active at the end, sorted and without repeats.
pub open spec fn current(ops: Seq<OpView>) -> Seq<StyleView> {
    unique(stack_of(ops))
}

/// The output of `ops` before the final clean-up, with colour codes from `t`.
pub open spec fn render(t: Seq<(Seq<char>, Seq<char>)>, ops: Seq<OpView>) -> Seq<char>
    decreases ops.len(),
{
    if ops.len() == 0 {
        seq![]
    } else {
        let out = render(t, ops.drop_last());
        let st = stack_of(ops.drop_last());
        match ops.last() {
            OpView::Literal(s) => out + s,
            OpView::Push(x) => if st.contains(x) {
                out
            } else {
                out + code_in(t, style_name(x))
            },
            OpView::Pop(x) => {
                let st2 = remove_last(st, x);
                if st2.contains(x) {
                    out
                } else {
                    match unstyle_name(x) {
                        Some(u) => out + code_in(t, u),
                        None => out + code_in(t, "reset"@) + codes(t, unique(st2)),
                    }
                }
            },
            OpView::Newline => out + seq!['\n'] + codes(t, unique(st)),
        }
    }
}

/// The full weechat text of `ops`: the output, then what switches off the styles still active.
pub open spec fn built(t: Seq<(Seq<char>, Seq<char>)>, ops: Seq<OpView>) -> Seq<char> {
    render(t, ops) + uncodes(t, current(ops))
}

/// The pieces of `s` between occurrences of `c` (`str::split`).
pub open spec fn split_on(s: Seq<char>, c: char) -> Seq<Seq<char>>
    decreases s.len(),
{
    if s.len() == 0 {
        seq![seq![]]
    } else {
        let r = split_on(s.drop_last(), c);
        if s.last() == c {
            r.push(seq![])
        } else {
            r.update(r.len() - 1, r.last().push(s.last()))
        }
    }
}

/// The operations for the pieces of a text: each piece as a literal, with a
/// line break before every piece but the first.
pub open spec fn pieces_ops(p: Seq<Seq<char>>) -> Seq<OpView>
    decreases p.len(),
{
    if p.len() == 0 {
        seq![]
    } else if p.len() == 1 {
        seq![OpView::Literal(p[0])]
    } else {
        pieces_ops(p.drop_last()) + seq![OpView::Newline, OpView::Literal(p.last())]
    }
}

/// The operations that `push_str` adds for `s`.
pub open spec fn text_ops(s: Seq<char>) -> Seq<OpView> {
    pieces_ops(split_on(s, '\n'))
}

/// How many times `x` occurs in `st`.
pub open spec fn occurrences(st: Seq<StyleView>, x: StyleView) -> nat
    decreases st.len(),
{
    if st.len() == 0 {
        0
    } else {
        occurrences(st.drop_last(), x) + if st.last() == x {
            1nat
        } else {
            0nat
        }
    }
}

/// `n` switch-offs of `x`.
pub open spec fn pops_of(x: StyleView, n: nat) -> Seq<OpView> {
    Seq::new(n, |_i: int| OpView::Pop(x))
}

/// For each style of `cur` in turn, as many switch-offs of it as it has
/// activations in `st`.
pub open spec fn closing_for(cur: Seq<StyleView>, st: Seq<StyleView>) -> Seq<OpView>
    decreases cur.len(),
{
    if cur.len() == 0 {
        seq![]
    } else {
        closing_for(cur.drop_last(), st) + pops_of(cur.last(), occurrences(st, cur.last()))
    }
}

/// What switches off every style still active at the end of `ops`: each
/// active style, in the order of [`current`], as many times as it is active.
pub open spec fn closing(ops: Seq<OpView>) -> Seq<OpView> {
    closing_for(current(ops), stack_of(ops))
}

/// A switch-on operation for each style of `r`.
pub open spec fn pushes(r: Seq<StyleView>) -> Seq<OpView> {
    r.map_values(|s: StyleView| OpView::Push(s))
}

/// No character of `s` is `c`.
pub open spec fn no_char(s: Seq<char>, c: char) -> bool {
    forall|i: int| 0 <= i < s.len() ==> s[i] != c
}

pub proof fn lemma_split_len(s: Seq<char>, c: char)
    ensures
        split_on(s, c).len() >= 1,
        forall|k: int| 0 <= k < split_on(s, c).len() ==> no_char(#[trigger] split_on(s, c)[k], c),
    decreases s.len(),
{
    if s.len() > 0 {
        lemma_split_len(s.drop_last(), c);
    }
}

pub proof fn lemma_pieces_clean(p: Seq<Seq<char>>)
    requires
        forall|k: int| 0 <= k < p.len() ==> no_newline(p[k]),
    ensures
        literals_clean(pieces_ops(p)),
    decreases p.len(),
{
    if p.len() > 1 {
        lemma_pieces_clean(p.drop_last());
        let a = pieces_ops(p.drop_last());
        let b = seq![OpView::Newline, OpView::Literal(p.last())];
        assert forall|i: int| 0 <= i < (a + b).len() && (a + b)[i] is Literal implies no_newline(
            (a + b)[i]->Literal_0,
        ) by {
            if i >= a.len() {
                assert((a + b)[i] == b[i - a.len()]);
            } else {
                assert((a + b)[i] == a[i]);
            }
        }
    }
}

/// Text put into a styled string never leaves a line break inside a
/// literal: each line break becomes an operation of its own.
pub proof fn law_literals_have_no_line_breaks(s: Seq<char>)
    ensures
        literals_clean(text_ops(s)),
{
    lemma_split_len(s, '\n');
    lemma_pieces_clean(split_on(s, '\n'));
}

pub proof fn lemma_clean_concat(a: Seq<OpView>, b: Seq<OpView>)
    requires
        literals_clean(a),
        literals_clean(b),
    ensures
        literals_clean(a + b),
{
    assert forall|i: int| 0 <= i < (a + b).len() && (a + b)[i] is Literal implies no_newline(
        (a + b)[i]->Literal_0,
    ) by {
        if i >= a.len() {
            assert((a + b)[i] == b[i - a.len()]);
        } else {
            assert((a + b)[i] == a[i]);
        }
    }
}

/// Balance holds for every prefix of a balanced sequence.
pub proof fn lemma_balanced_prefix(ops: Seq<OpView>, i: int)
    requires
        balanced(ops),
        0 <= i <= ops.len(),
    ensures
        balanced(ops.take(i)),
    decreases ops.len(),
{
    if i < ops.len() {
        assert(ops.drop_last().take(i) =~= ops.take(i));
        lemma_balanced_prefix(ops.drop_last(), i);
    } else {
        assert(ops.take(i) =~= ops);
    }
}

/// Removing the last occurrence of a style from a stack with more on top.
pub proof fn lemma_remove_last_concat(a: Seq<StyleView>, b: Seq<StyleView>, x: StyleView)
    requires
        b.contains(x),
    ensures
        (a + b).contains(x),
        remove_last(a + b, x) == a + remove_last(b, x),
    decreases b.len(),
{
    lemma_last_index(b, x);
    let k = last_index(b, x);
    assert((a + b)[a.len() + k] == b[k]);
    assert forall|j: int| a.len() + k < j < (a + b).len() implies (a + b)[j] != x by {
        assert((a + b)[j] == b[j - a.len()]);
    }
    lemma_last_index_at(a + b, x, a.len() + k);
    assert((a + b).remove(a.len() + k) =~= a + b.remove(k));
}

proof fn lemma_last_index_at(st: Seq<StyleView>, x: StyleView, i: int)
    requires
        0 <= i < st.len(),
        st[i] == x,
        forall|k: int| i < k < st.len() ==> st[k] != x,
    ensures
        last_index(st, x) == i,
        st.contains(x),
    decreases st.len(),
{
    if i < st.len() - 1 {
        lemma_last_index_at(st.drop_last(), x, i);
    }
}

proof fn lemma_occurrences_remove(st: Seq<StyleView>, i: int, z: StyleView)
    requires
        0 <= i < st.len(),
    ensures
        occurrences(st.remove(i), z) + (if st[i] == z {
            1nat
        } else {
            0nat
        }) == occurrences(st, z),
    decreases st.len(),
{
    if i < st.len() - 1 {
        assert(st.remove(i).drop_last() =~= st.drop_last().remove(i));
        assert(st.remove(i).last() == st.last());
        lemma_occurrences_remove(st.drop_last(), i, z);
    } else {
        assert(st.remove(i) =~= st.drop_last());
    }
}

proof fn lemma_occurrences_contains(st: Seq<StyleView>, z: StyleView)
    ensures
        st.contains(z) <==> occurrences(st, z) > 0,
    decreases st.len(),
{
    if st.len() > 0 {
        lemma_occurrences_contains(st.drop_last(), z);
        if st.contains(z) && st.last() != z {
            let k = choose|k: int| 0 <= k < st.len() && st[k] == z;
            assert(st.drop_last()[k] == z);
        }
        if st.drop_last().contains(z) {
            let k = choose|k: int| 0 <= k < st.len() - 1 && st.drop_last()[k] == z;
            assert(st[k] == z);
        }
        if st.last() == z {
            assert(st[st.len() - 1] == z);
        }
    }
}

/// Switching off `x` `j` times, where it is active at least that often
/// above the stack `a`, takes `j` of its activations off.
proof fn lemma_pops_of(
    x: Seq<OpView>,
    a: Seq<StyleView>,
    t: Seq<StyleView>,
    y: StyleView,
    j: nat,
) -> (t2: Seq<StyleView>)
    requires
        stack_of(x) == a + t,
        j <= occurrences(t, y),
    ensures
        stack_of(x + pops_of(y, j)) == a + t2,
        forall|z: StyleView|
            #[trigger] occurrences(t2, z) == occurrences(t, z) - (if z == y {
                j
            } else {
                0nat
            }),
        balanced(x) ==> balanced(x + pops_of(y, j)),
    decreases j,
{
    if j == 0 {
        assert(x + pops_of(y, 0) =~= x);
        t
    } else {
        let t1 = lemma_pops_of(x, a, t, y, (j - 1) as nat);
        let x1 = x + pops_of(y, (j - 1) as nat);
        let x2 = x + pops_of(y, j);
        assert(x2 =~= x1.push(OpView::Pop(y)));
        assert(x2.drop_last() =~= x1);
        assert(occurrences(t1, y) > 0);
        lemma_occurrences_contains(t1, y);
        lemma_remove_last_concat(a, t1, y);
        lemma_last_index(t1, y);
        let li = last_index(t1, y);
        let t2 = t1.remove(li);
        assert forall|z: StyleView| #[trigger]
            occurrences(t2, z) == occurrences(t, z) - (if z == y {
                j
            } else {
                0nat
            }) by {
            lemma_occurrences_remove(t1, li, z);
        }
        t2
    }
}

/// Switching off the styles of `cur`, each as often as it is active in `s`,
/// on top of the stack `a + s`.
proof fn lemma_closing_for(
    x: Seq<OpView>,
    a: Seq<StyleView>,
    s: Seq<StyleView>,
    cur: Seq<StyleView>,
    i: int,
) -> (t: Seq<StyleView>)
    requires
        stack_of(x) == a + s,
        strictly_sorted(cur),
        0 <= i <= cur.len(),
    ensures
        stack_of(x + closing_for(cur.take(i), s)) == a + t,
        forall|z: StyleView|
            #[trigger] occurrences(t, z) == if cur.take(i).contains(z) {
                0
            } else {
                occurrences(s, z)
            },
        balanced(x) ==> balanced(x + closing_for(cur.take(i), s)),
    decreases i,
{
    if i == 0 {
        assert(cur.take(0) =~= Seq::<StyleView>::empty());
        assert(x + closing_for(cur.take(0), s) =~= x);
        s
    } else {
        let t1 = lemma_closing_for(x, a, s, cur, i - 1);
        let y = cur[i - 1];
        assert(cur.take(i).drop_last() =~= cur.take(i - 1));
        assert(cur.take(i).last() == y);
        assert(!cur.take(i - 1).contains(y)) by {
            if cur.take(i - 1).contains(y) {
                let k = choose|k: int| 0 <= k < i - 1 && #[trigger] cur.take(i - 1)[k] == y;
                assert(cur[k] == y);
                lemma_style_lt_irrefl(y);
            }
        }
        assert(occurrences(t1, y) == occurrences(s, y));
        let x1 = x + closing_for(cur.take(i - 1), s);
        let t2 = lemma_pops_of(x1, a, t1, y, occurrences(s, y));
        assert(x + closing_for(cur.take(i), s) =~= x1 + pops_of(y, occurrences(s, y)));
        assert forall|z: StyleView| #[trigger]
            occurrences(t2, z) == if cur.take(i).contains(z) {
                0
            } else {
                occurrences(s, z)
            } by {
            if cur.take(i).contains(z) && z != y {
                let k = choose|k: int| 0 <= k < i && #[trigger] cur.take(i)[k] == z;
                assert(cur.take(i - 1)[k] == z);
            }
            if cur.take(i - 1).contains(z) {
                let k = choose|k: int| 0 <= k < i - 1 && #[trigger] cur.take(i - 1)[k] == z;
                assert(cur.take(i)[k] == z);
            }
            assert(cur.take(i)[i - 1] == y);
        }
        t2
    }
}

/// Closing a balanced string after it leaves the stack that was below it.
pub proof fn lemma_closing(x: Seq<OpView>, b: Seq<OpView>)
    requires
        balanced(b),
    ensures
        stack_of(x + b + closing(b)) == stack_of(x),
        balanced(x) ==> balanced(x + b + closing(b)),
{
    lemma_stack_concat(x, b);
    let s = stack_of(b);
    let cur = current(b);
    lemma_unique(s);
    let t = lemma_closing_for(x + b, stack_of(x), s, cur, cur.len() as int);
    assert(cur.take(cur.len() as int) =~= cur);
    if t.len() > 0 {
        let z = t[0];
        lemma_occurrences_contains(t, z);
        lemma_occurrences_contains(s, z);
        assert(t.contains(z)) by {
            assert(t[0] == z);
        }
        assert(false);
    }
    assert(stack_of(x) + t =~= stack_of(x));
}

/// A closing has no literals.
proof fn lemma_closing_clean(cur: Seq<StyleView>, st: Seq<StyleView>, i: int)
    requires
        0 <= i <= cur.len(),
    ensures
        literals_clean(closing_for(cur.take(i), st)),
    decreases i,
{
    if i > 0 {
        lemma_closing_clean(cur, st, i - 1);
        assert(cur.take(i).drop_last() =~= cur.take(i - 1));
        let c = closing_for(cur.take(i), st);
        let p = closing_for(cur.take(i - 1), st);
        assert forall|k: int| 0 <= k < c.len() && c[k] is Literal implies no_newline(c[k]->Literal_0) by {
            if k < p.len() {
                assert(c[k] == p[k]);
            }
        }
    } else {
        assert(cur.take(0) =~= Seq::<StyleView>::empty());
    }
}

/// How many times `s` occurs in `st`.
fn count_style(st: &Vec<Style>, s: &Style) -> (n: usize)
    ensures
        n == occurrences(st@.map_values(|x: Style| x@), s@),
{
    let ghost v = st@.map_values(|x: Style| x@);
    let mut n: usize = 0;
    let mut i: usize = 0;
    assert(v.take(0) =~= Seq::<StyleView>::empty());
    while i < st.len()
        invariant
            i <= st.len(),
            v == st@.map_values(|x: Style| x@),
            n == occurrences(v.take(i as int), s@),
            n <= i,
        decreases st.len() - i,
    {
        assert(v.take(i + 1).drop_last() =~= v.take(i as int));
        assert(v.take(i + 1).last() == st@[i as int]@);
        if st[i].same(s) {
            n += 1;
        }
        i += 1;
    }
    assert(v.take(i as int) =~= v);
    n
}

/// Running balanced operations on top of a stack leaves the stack below untouched.
pub proof fn lemma_stack_concat(a: Seq<OpView>, b: Seq<OpView>)
    requires
        balanced(b),
    ensures
        stack_of(a + b) == stack_of(a) + stack_of(b),
        balanced(a) ==> balanced(a + b),
    decreases b.len(),
{
    if b.len() == 0 {
        assert(a + b =~= a);
        assert(stack_of(a) + stack_of(b) =~= stack_of(a));
    } else {
        let ab = a + b;
        assert(ab.drop_last() =~= a + b.drop_last());
        assert(ab.last() == b.last());
        lemma_stack_concat(a, b.drop_last());
        match b.last() {
            OpView::Push(s) => {
                assert(stack_of(a) + stack_of(b.drop_last()).push(s) =~= (stack_of(a) + stack_of(
                    b.drop_last(),
                )).push(s));
            },
            OpView::Pop(s) => {
                lemma_remove_last_concat(stack_of(a), stack_of(b.drop_last()), s);
            },
            _ => {},
        }
    }
}

/// The lines split off so far and the line being built, after running `ops`.
///
/// A line break closes the current line; the next one starts by switching on
/// the styles active at the end of the closed line.
pub open spec fn lines_acc(ops: Seq<OpView>) -> (Seq<Seq<OpView>>, Seq<OpView>)
    decreases ops.len(),
{
    if ops.len() == 0 {
        (seq![], seq![])
    } else {
        let (done, tmp) = lines_acc(ops.drop_last());
        match ops.last() {
            OpView::Newline => (done.push(tmp), pushes(current(tmp))),
            op => (done, tmp.push(op)),
        }
    }
}

/// Every line closed by a line break switches off only styles active in that line.
pub open spec fn lines_ok(ops: Seq<OpView>) -> bool
    decreases ops.len(),
{
    if ops.len() == 0 {
        true
    } else {
        lines_ok(ops.drop_last()) && (ops.last() is Newline ==> balanced(
            lines_acc(ops.drop_last()).1,
        ))
    }
}

/// The lines of `ops`; a last line without operations is left out.
pub open spec fn lines_of(ops: Seq<OpView>) -> Seq<Seq<OpView>> {
    let (done, tmp) = lines_acc(ops);
    if tmp.len() > 0 {
        done.push(tmp)
    } else {
        done
    }
}

pub proof fn lemma_lines_ok_prefix(ops: Seq<OpView>, i: int)
    requires
        lines_ok(ops),
        0 <= i <= ops.len(),
    ensures
        lines_ok(ops.take(i)),
    decreases ops.len(),
{
    if i < ops.len() {
        assert(ops.drop_last().take(i) =~= ops.take(i));
        lemma_lines_ok_prefix(ops.drop_last(), i);
    } else {
        assert(ops.take(i) =~= ops);
    }
}

/// The views of a list of styled strings.
pub open spec fn views(v: Seq<StyledString>) -> Seq<Seq<OpView>> {
    v.map_values(|s: StyledString| s@)
}

/// Where `pat` first occurs in the literals of `ops`, as a byte offset into
/// their concatenation, counting from `offset` (`str::find` on each literal in turn).
///
/// A match of valid UTF-8 in valid UTF-8 starts at a character boundary, so
/// the first match by characters is the first match by bytes.
pub open spec fn find_in(ops: Seq<OpView>, pat: Seq<char>, offset: int) -> Option<int>
    decreases ops.len(),
{
    if ops.len() == 0 {
        None
    } else {
        match ops[0] {
            OpView::Literal(t) => match first_occurrence(t, pat) {
                Some(i) => Some(offset + byte_len(t.take(i))),
                None => find_in(ops.drop_first(), pat, offset + byte_len(t)),
            },
            _ => find_in(ops.drop_first(), pat, offset),
        }
    }
}

/// The number of bytes in all the literals of `ops`.
pub open spec fn literal_bytes(ops: Seq<OpView>) -> nat
    decreases ops.len(),
{
    if ops.len() == 0 {
        0
    } else {
        (match ops[0] {
            OpView::Literal(t) => byte_len(t),
            _ => 0,
        }) + literal_bytes(ops.drop_first())
    }
}

/// The byte offset of the first occurrence of `pat` in `text`.
fn find_in_text(text: &String, pat: &Vec<char>) -> (r: Option<usize>)
    requires
        byte_len(text@) <= usize::MAX,
    ensures
        match first_occurrence(text@, pat@) {
            Some(i) => r == Some(byte_len(text@.take(i)) as usize) && byte_len(text@.take(i))
                <= byte_len(text@),
            None => r is None,
        },
{
    let v = to_chars(text.as_str());
    let found = find_chars(&v, pat);
    assert(v@ == text@);
    match found {
        Some(k) => {
            let ghost t = v@;
            assert(byte_len(t.take(k as int)) <= byte_len(t)) by {
                lemma_byte_len_concat(t.take(k as int), t.skip(k as int));
                assert(t.take(k as int) + t.skip(k as int) =~= t);
            }
            Some(prefix_bytes(&v, k))
        },
        None => None,
    }
}

/// `x`, or 0 where it is negative (`usize::saturating_sub`).
pub open spec fn at_least_zero(x: int) -> int {
    if x < 0 {
        0
    } else {
        x
    }
}

/// The operations of a slice over byte offsets `start..end` of the text,
/// where `offset` bytes come before `ops`.
///
/// Styles and line breaks are kept (a line break counts one byte). A literal
/// that ends before `start` is kept whole; the first literal that reaches
/// `start` is cut, and so is each one after it up to the one that reaches
/// `end`, after which nothing is kept.
pub open spec fn slice_from(ops: Seq<OpView>, start: int, end: int, offset: int) -> Seq<OpView>
    decreases ops.len(),
{
    if ops.len() == 0 {
        seq![]
    } else {
        let rest = ops.drop_first();
        match ops[0] {
            OpView::Literal(t) => {
                let n = byte_len(t) as int;
                if start > n + offset {
                    seq![ops[0]] + slice_from(rest, start, end, offset + n)
                } else {
                    let b = if end - offset < n {
                        end - offset
                    } else {
                        n
                    };
                    let piece = OpView::Literal(cut(t, at_least_zero(start - offset), b));
                    if end > n + offset {
                        seq![piece] + slice_from(rest, start, end, offset + n)
                    } else {
                        seq![piece]
                    }
                }
            },
            OpView::Newline => seq![ops[0]] + slice_from(rest, start, end, offset + 1),
            _ => seq![ops[0]] + slice_from(rest, start, end, offset),
        }
    }
}

/// The offsets of [`slice_from`] stay within `usize`, and `end` is never
/// behind the offset of a literal that is cut.
pub open spec fn slice_ok(ops: Seq<OpView>, start: int, end: int, offset: int) -> bool
    decreases ops.len(),
{
    if ops.len() == 0 {
        true
    } else {
        let rest = ops.drop_first();
        match ops[0] {
            OpView::Literal(t) => {
                let n = byte_len(t) as int;
                n + offset <= usize::MAX && if start > n + offset {
                    slice_ok(rest, start, end, offset + n)
                } else {
                    end >= offset && (end > n + offset ==> slice_ok(rest, start, end, offset + n))
                }
            },
            OpView::Newline => offset + 1 <= usize::MAX && slice_ok(rest, start, end, offset + 1),
            _ => slice_ok(rest, start, end, offset),
        }
    }
}

/// Splits `s` at each `c` (`str::split`).
pub fn split_char(s: &str, c: char) -> (pieces: Vec<String>)
    ensures
        pieces@.map_values(|p: String| p@) == split_on(s@, c),
{
    let v = to_chars(s);
    let mut pieces: Vec<String> = Vec::new();
    let mut cur = String::new();
    let mut i: usize = 0;
    assert(v@.take(0) =~= Seq::<char>::empty());
    assert(pieces@.map_values(|p: String| p@).push(cur@) =~= split_on(v@.take(0), c));
    while i < v.len()
        invariant
            i <= v.len(),
            v@ == s@,
            pieces@.map_values(|p: String| p@).push(cur@) == split_on(v@.take(i as int), c),
        decreases v.len() - i,
    {
        let ghost pv = pieces@.map_values(|p: String| p@);
        assert(v@.take(i + 1).drop_last() =~= v@.take(i as int));
        assert(v@.take(i + 1).last() == v@[i as int]);
        if v[i] == c {
            pieces.push(cur);
            cur = String::new();
            assert(pieces@.map_values(|p: String| p@) =~= split_on(v@.take(i as int), c));
        } else {
            push_char(&mut cur, v[i]);
            assert(pieces@.map_values(|p: String| p@).push(cur@) =~= split_on(
                v@.take(i as int),
                c,
            ).update(pv.len() as int, split_on(v@.take(i as int), c).last().push(v@[i as int])));
        }
        i += 1;
    }
    pieces.push(cur);
    assert(v@.take(v.len() as int) =~= v@);
    pieces
}

/// Splits `s` at its line breaks.
pub fn split_newlines(s: &str) -> (pieces: Vec<String>)
    ensures
        pieces@.map_values(|p: String| p@) == split_on(s@, '\n'),
{
    split_char(s, '\n')
}

/// A string with nested styles, for weechat.
#[derive(Clone, Debug)]
pub struct StyledString {
    ops: Vec<Op>,
}

impl View for StyledString {
    type V = Seq<OpView>;

    closed spec fn view(&self) -> Seq<OpView> {
        ops_view(self.ops@)
    }
}

impl StyledString {
    /// The empty string.
    pub fn new() -> (s: StyledString)
        ensures
            s@ == Seq::<OpView>::empty(),
    {
        let s = StyledString { ops: Vec::new() };
        assert(s@ =~= Seq::<OpView>::empty());
        s
    }

    /// A string holding the plain text `text`.
    pub fn from_text(text: &str) -> (s: StyledString)
        ensures
            s@ == text_ops(text@),
    {
        let mut s = StyledString::new();
        s.push_str(text);
        assert(Seq::<OpView>::empty() + text_ops(text@) =~= text_ops(text@));
        s
    }

    /// A copy of this string.
    pub fn duplicate(&self) -> (s: StyledString)
        ensures
            s@ == self@,
    {
        let mut ops: Vec<Op> = Vec::new();
        let mut i: usize = 0;
        while i < self.ops.len()
            invariant
                i <= self.ops.len(),
                ops_view(ops@) == ops_view(self.ops@).take(i as int),
            decreases self.ops.len() - i,
        {
            let ghost before = ops@;
            let d = self.ops[i].duplicate();
            ops.push(d);
            proof {
                lemma_ops_view_push(before, d);
                lemma_ops_view_push(self.ops@, d);
            }
            assert(ops_view(ops@) =~= ops_view(self.ops@).take(i + 1));
            i += 1;
        }
        assert(ops_view(self.ops@).take(self.ops.len() as int) =~= ops_view(self.ops@));
        StyledString { ops }
    }

    /// The operations of this string, in order.
    pub fn into_ops(self) -> (v: Vec<Op>)
        ensures
            ops_view(v@) == self@,
    {
        self.ops
    }

    /// Adds one operation at the end.
    fn add(&mut self, op: Op)
        ensures
            final(self)@ == old(self)@.push(op@),
    {
        proof {
            lemma_ops_view_push(self.ops@, op);
        }
        self.ops.push(op);
    }

    /// Switches `style` on.
    pub fn push_style(&mut self, style: Style) -> (r: &mut Self)
        ensures
            r@ == old(self)@.push(OpView::Push(style@)),
            final(self)@ == final(r)@,
    {
        self.add(Op::PushStyle(style));
        self
    }

    /// Switches `style` off.
    pub fn pop_style(&mut self, style: Style) -> (r: &mut Self)
        ensures
            r@ == old(self)@.push(OpView::Pop(style@)),
            final(self)@ == final(r)@,
    {
        self.add(Op::PopStyle(style));
        self
    }

    /// Appends plain text; each line break in it becomes a line break operation.
    pub fn push_str(&mut self, str: &str) -> (r: &mut Self)
        ensures
            r@ == old(self)@ + text_ops(str@),
            final(self)@ == final(r)@,
    {
        self.add_text(str);
        self
    }

    fn add_text(&mut self, str: &str)
        ensures
            final(self)@ == old(self)@ + text_ops(str@),
    {
        let pieces = split_newlines(str);
        let ghost p = pieces@.map_values(|x: String| x@);
        let ghost start = self@;
        let mut k: usize = 0;
        proof {
            lemma_split_len(str@, '\n');
            assert(p.take(0) =~= Seq::<Seq<char>>::empty());
            assert(start + pieces_ops(p.take(0)) =~= start);
        }
        while k < pieces.len()
            invariant
                k <= pieces.len(),
                p == pieces@.map_values(|x: String| x@),
                self@ == start + pieces_ops(p.take(k as int)),
            decreases pieces.len() - k,
        {
            let ghost before = self@;
            assert(p.take(k + 1).drop_last() =~= p.take(k as int));
            assert(p.take(k + 1).last() == pieces@[k as int]@);
            if k > 0 {
                self.add(Op::Newline);
            }
            let lit = copy_string(&pieces[k]);
            self.add(Op::Literal(lit));
            proof {
                if k == 0 {
                    assert(self@ =~= start + pieces_ops(p.take(1)));
                } else {
                    assert(pieces_ops(p.take(k + 1)) == pieces_ops(p.take(k as int)) + seq![
                        OpView::Newline,
                        OpView::Literal(p[k as int]),
                    ]);
                    assert(self@ =~= start + pieces_ops(p.take(k + 1)));
                }
            }
            k += 1;
        }
        assert(p.take(p.len() as int) =~= p);
    }

    /// Appends `str` with `style` switched on around it.
    pub fn push_styled_str(&mut self, style: Style, str: &str) -> (r: &mut Self)
        ensures
            r@ == old(self)@ + seq![OpView::Push(style@)] + text_ops(str@) + seq![
                OpView::Pop(style@),
            ],
            final(self)@ == final(r)@,
    {
        let copy = style.duplicate();
        self.add(Op::PushStyle(style));
        self.add_text(str);
        self.add(Op::PopStyle(copy));
        assert(self@ =~= old(self)@ + seq![OpView::Push(copy@)] + text_ops(str@) + seq![
            OpView::Pop(copy@),
        ]);
        self
    }

    /// Whether there are no operations.
    pub fn is_empty(&self) -> (b: bool)
        ensures
            b == (self@.len() == 0),
    {
        self.ops.len() == 0
    }

    /// Adds a styled string to the end of this string.
    pub fn append(&mut self, other: StyledString) -> (r: &mut Self)
        ensures
            r@ == old(self)@ + other@,
            final(self)@ == final(r)@,
    {
        let ghost start = self@;
        let mut i: usize = 0;
        assert(start + other@.take(0) =~= start);
        while i < other.ops.len()
            invariant
                i <= other.ops.len(),
                other@.len() == other.ops@.len(),
                self@ == start + other@.take(i as int),
            decreases other.ops.len() - i,
        {
            let d = other.ops[i].duplicate();
            self.add(d);
            assert(other@[i as int] == d@);
            assert(self@ =~= start + other@.take(i + 1));
            i += 1;
        }
        assert(other@.take(other@.len() as int) =~= other@);
        self
    }

    /// The styles switched on and not yet off at the end, the first first.
    fn open_styles(&self) -> (r: Vec<Style>)
        requires
            balanced(self@),
        ensures
            r@.map_values(|s: Style| s@) == stack_of(self@),
    {
        let mut stack = StyleState::new();
        let mut i: usize = 0;
        while i < self.ops.len()
            invariant
                i <= self.ops.len(),
                self@.len() == self.ops@.len(),
                balanced(self@),
                stack@ == stack_of(self@.take(i as int)),
            decreases self.ops.len() - i,
        {
            proof {
                lemma_balanced_prefix(self@, i + 1);
                assert(self@.take(i + 1).drop_last() =~= self@.take(i as int));
                assert(self@.take(i + 1).last() == self.ops@[i as int]@);
            }
            match &self.ops[i] {
                Op::PushStyle(style) => stack.push(style.duplicate()),
                Op::PopStyle(style) => stack.pop(style),
                Op::Literal(_) | Op::Newline => {},
            }
            i += 1;
        }
        assert(self@.take(self@.len() as int) =~= self@);
        stack.into_styles()
    }

    /// The active styles at the end, sorted and without repeats.
    pub fn current_styles(&self) -> (r: Vec<Style>)
        requires
            balanced(self@),
        ensures
            r@.map_values(|s: Style| s@) == current(self@),
    {
        let mut stack = StyleState::new();
        let mut i: usize = 0;
        while i < self.ops.len()
            invariant
                i <= self.ops.len(),
                self@.len() == self.ops@.len(),
                balanced(self@),
                stack@ == stack_of(self@.take(i as int)),
            decreases self.ops.len() - i,
        {
            proof {
                lemma_balanced_prefix(self@, i + 1);
                assert(self@.take(i + 1).drop_last() =~= self@.take(i as int));
                assert(self@.take(i + 1).last() == self.ops@[i as int]@);
            }
            match &self.ops[i] {
                Op::PushStyle(style) => stack.push(style.duplicate()),
                Op::PopStyle(style) => stack.pop(style),
                Op::Literal(_) | Op::Newline => {},
            }
            i += 1;
        }
        assert(self@.take(self@.len() as int) =~= self@);
        stack.unique_styles()
    }

    /// Adds other, possibly styled, text without it changing the styling
    /// that follows: each style it left on is switched off again, as many
    /// times as it is on, the styles taken in the order of
    /// [`StyledString::current_styles`].
    pub fn absorb(&mut self, other: StyledString) -> (r: &mut Self)
        requires
            balanced(other@),
        ensures
            r@ == old(self)@ + other@ + closing(other@),
            balanced(old(self)@) ==> balanced(r@),
            literals_clean(old(self)@) && literals_clean(other@) ==> literals_clean(r@),
            final(self)@ == final(r)@,
    {
        let open = other.open_styles();
        let styles = other.current_styles();
        let ghost st = stack_of(other@);
        let ghost cur = current(other@);
        let ghost start = self@;
        let ghost ov = other@;
        self.append(other);
        let ghost mid = self@;
        let mut j: usize = 0;
        assert(cur.take(0) =~= Seq::<StyleView>::empty());
        assert(mid + closing_for(cur.take(0), st) =~= mid);
        while j < styles.len()
            invariant
                j <= styles.len(),
                styles@.map_values(|s: Style| s@) == cur,
                open@.map_values(|s: Style| s@) == st,
                self@ == mid + closing_for(cur.take(j as int), st),
            decreases styles.len() - j,
        {
            let y = &styles[j];
            let ghost yv = cur[j as int];
            assert(y@ == yv);
            let n = count_style(&open, y);
            let ghost base = self@;
            let mut k: usize = 0;
            assert(base + pops_of(yv, 0) =~= base);
            while k < n
                invariant
                    k <= n,
                    n == occurrences(st, yv),
                    y@ == yv,
                    self@ == base + pops_of(yv, k as nat),
                decreases n - k,
            {
                self.add(Op::PopStyle(y.duplicate()));
                assert(self@ =~= base + pops_of(yv, (k + 1) as nat));
                k += 1;
            }
            assert(cur.take(j + 1).drop_last() =~= cur.take(j as int));
            assert(cur.take(j + 1).last() == yv);
            assert(self@ =~= mid + closing_for(cur.take(j + 1), st));
            j += 1;
        }
        proof {
            assert(cur.take(cur.len() as int) =~= cur);
            lemma_closing(start, ov);
            assert(mid == start + ov);
            if literals_clean(start) && literals_clean(ov) {
                lemma_clean_concat(start, ov);
                lemma_closing_clean(cur, st, cur.len() as int);
                lemma_clean_concat(mid, closing(ov));
            }
        }
        self
    }

    /// The weechat text of this string, with colour codes from `table`.
    pub fn build_with(&self, table: &ColorTable) -> (out: String)
        requires
            balanced(self@),
        ensures
            out@ == built(table@, self@),
    {
        let mut out = String::new();
        let mut stack = StyleState::new();
        let mut i: usize = 0;
        while i < self.ops.len()
            invariant
                i <= self.ops.len(),
                self@.len() == self.ops@.len(),
                balanced(self@),
                stack@ == stack_of(self@.take(i as int)),
                out@ == render(table@, self@.take(i as int)),
            decreases self.ops.len() - i,
        {
            proof {
                lemma_balanced_prefix(self@, i + 1);
                assert(self@.take(i + 1).drop_last() =~= self@.take(i as int));
                assert(self@.take(i + 1).last() == self.ops@[i as int]@);
            }
            match &self.ops[i] {
                Op::Literal(text) => {
                    push_str(&mut out, text.as_str());
                },
                Op::PushStyle(style) => {
                    if !stack.contains(style) {
                        let code = style.style(table);
                        push_str(&mut out, code.as_str());
                    }
                    stack.push(style.duplicate());
                },
                Op::PopStyle(style) => {
                    stack.pop(style);
                    if !stack.contains(style) {
                        match style.try_unstyle(table) {
                            Some(unstyle) => {
                                push_str(&mut out, unstyle.as_str());
                            },
                            None => {
                                let reset = Style::Reset.style(table);
                                push_str(&mut out, reset.as_str());
                                let restyle = stack.style(table);
                                push_str(&mut out, restyle.as_str());
                            },
                        }
                    }
                },
                Op::Newline => {
                    push_char(&mut out, '\n');
                    let restyle = stack.style(table);
                    push_str(&mut out, restyle.as_str());
                },
            }
            i += 1;
        }
        assert(self@.take(self@.len() as int) =~= self@);
        let tail = stack.unstyle(table);
        push_str(&mut out, tail.as_str());
        out
    }

    /// The text of this string with every style written as its weechat colour name.
    pub fn build(&self) -> (out: String)
        requires
            balanced(self@),
        ensures
            out@ == built(Seq::empty(), self@),
    {
        self.build_with(&ColorTable::identity())
    }

    /// The lines of this string, each starting with the styles active where
    /// the one before it ended.
    pub fn lines(self) -> (out: Vec<StyledString>)
        requires
            lines_ok(self@),
        ensures
            views(out@) == lines_of(self@),
    {
        let mut out: Vec<StyledString> = Vec::new();
        let mut tmp = StyledString::new();
        let mut i: usize = 0;
        proof {
            assert(self@.take(0) =~= Seq::<OpView>::empty());
            assert(views(out@) =~= Seq::<Seq<OpView>>::empty());
        }
        while i < self.ops.len()
            invariant
                i <= self.ops.len(),
                self@.len() == self.ops@.len(),
                lines_ok(self@),
                views(out@) == lines_acc(self@.take(i as int)).0,
                tmp@ == lines_acc(self@.take(i as int)).1,
            decreases self.ops.len() - i,
        {
            proof {
                lemma_lines_ok_prefix(self@, i + 1);
                assert(self@.take(i + 1).drop_last() =~= self@.take(i as int));
                assert(self@.take(i + 1).last() == self.ops@[i as int]@);
            }
            match &self.ops[i] {
                Op::Newline => {
                    let ghost before = views(out@);
                    let closed = tmp.duplicate();
                    out.push(closed);
                    assert(views(out@) =~= before.push(tmp@));
                    let keep = tmp.current_styles();
                    let ghost kv = keep@.map_values(|s: Style| s@);
                    tmp = StyledString::new();
                    let mut j: usize = 0;
                    assert(pushes(kv.take(0)) =~= Seq::<OpView>::empty());
                    while j < keep.len()
                        invariant
                            j <= keep.len(),
                            kv == keep@.map_values(|s: Style| s@),
                            tmp@ == pushes(kv.take(j as int)),
                        decreases keep.len() - j,
                    {
                        tmp.add(Op::PushStyle(keep[j].duplicate()));
                        assert(kv[j as int] == keep@[j as int]@);
                        assert(tmp@ =~= pushes(kv.take(j + 1)));
                        j += 1;
                    }
                    assert(kv.take(kv.len() as int) =~= kv);
                },
                op => {
                    tmp.add(op.duplicate());
                },
            }
            i += 1;
        }
        assert(self@.take(self@.len() as int) =~= self@);
        if !tmp.is_empty() {
            let ghost before = views(out@);
            let ghost last = tmp@;
            out.push(tmp);
            assert(views(out@) =~= before.push(last));
        }
        out
    }

    /// The byte offset of the first occurrence of `substr` in the text of this
    /// string; line breaks are not counted, and a match never spans two literals.
    pub fn find(&self, substr: &str) -> (r: Option<usize>)
        requires
            literal_bytes(self@) <= usize::MAX,
        ensures
            r == (match find_in(self@, substr@, 0) {
                Some(k) => Some(k as usize),
                None => None::<usize>,
            }),
            find_in(self@, substr@, 0) is Some ==> find_in(self@, substr@, 0)->Some_0 <= usize::MAX,
    {
        let pat = to_chars(substr);
        let mut offset: usize = 0;
        let mut i: usize = 0;
        assert(self@.skip(0) =~= self@);
        while i < self.ops.len()
            invariant
                i <= self.ops.len(),
                self@.len() == self.ops@.len(),
                pat@ == substr@,
                offset + literal_bytes(self@.skip(i as int)) == literal_bytes(self@),
                literal_bytes(self@) <= usize::MAX,
                find_in(self@.skip(i as int), substr@, offset as int) == find_in(self@, substr@, 0),
            decreases self.ops.len() - i,
        {
            let ghost rest = self@.skip(i as int);
            assert(rest[0] == self.ops@[i as int]@);
            assert(rest.drop_first() =~= self@.skip(i + 1));
            if let Op::Literal(text) = &self.ops[i] {
                proof {
                    assert(literal_bytes(rest) == byte_len(text@) + literal_bytes(rest.drop_first()));
                }
                match find_in_text(text, &pat) {
                    Some(k) => {
                        return Some(offset + k);
                    },
                    None => {
                        let n = text.as_str().len();
                        offset = offset + n;
                    },
                }
            }
            i += 1;
        }
        None
    }

    /// The part of this string between byte offsets `range.start` and
    /// `range.end` of its text, with all its style operations.
    pub fn slice(self, range: std::ops::Range<usize>) -> (out: StyledString)
        requires
            slice_ok(self@, range.start as int, range.end as int, 0),
        ensures
            out@ == slice_from(self@, range.start as int, range.end as int, 0),
    {
        let start = range.start;
        let end = range.end;
        let mut out = StyledString::new();
        let mut offset: usize = 0;
        let mut i: usize = 0;
        assert(self@.skip(0) =~= self@);
        assert(Seq::<OpView>::empty() + slice_from(self@, start as int, end as int, 0) =~= slice_from(
            self@,
            start as int,
            end as int,
            0,
        ));
        while i < self.ops.len()
            invariant
                i <= self.ops.len(),
                self@.len() == self.ops@.len(),
                start == range.start,
                end == range.end,
                slice_ok(self@.skip(i as int), start as int, end as int, offset as int),
                out@ + slice_from(self@.skip(i as int), start as int, end as int, offset as int)
                    == slice_from(self@, start as int, end as int, 0),
            decreases self.ops.len() - i,
        {
            let ghost rest = self@.skip(i as int);
            assert(rest[0] == self.ops@[i as int]@);
            assert(rest.drop_first() =~= self@.skip(i + 1));
            let ghost tail = slice_from(rest.drop_first(), start as int, end as int, offset as int);
            match &self.ops[i] {
                Op::Literal(text) => {
                    let n = text.as_str().len();
                    if start > n + offset {
                        let ghost before = out@;
                        out.add(Op::Literal(copy_string(text)));
                        assert(out@ + slice_from(self@.skip(i + 1), start as int, end as int, (offset + n) as int) =~= before + slice_from(rest, start as int, end as int, offset as int));
                        offset = offset + n;
                    } else {
                        let a = start.saturating_sub(offset);
                        let b = if end - offset < n {
                            end - offset
                        } else {
                            n
                        };
                        let ghost before = out@;
                        let piece = cut_bytes(text.as_str(), a, b);
                        out.add(Op::Literal(piece));
                        if end > n + offset {
                            assert(out@ + slice_from(self@.skip(i + 1), start as int, end as int, (offset + n) as int) =~= before + slice_from(rest, start as int, end as int, offset as int));
                            offset = offset + n;
                        } else {
                            assert(out@ =~= before + slice_from(rest, start as int, end as int, offset as int));
                            return out;
                        }
                    }
                },
                Op::Newline => {
                    let ghost before = out@;
                    out.add(Op::Newline);
                    assert(out@ + slice_from(self@.skip(i + 1), start as int, end as int, (offset + 1) as int) =~= before + slice_from(rest, start as int, end as int, offset as int));
                    offset = offset + 1;
                },
                op => {
                    let ghost before = out@;
                    out.add(op.duplicate());
                    assert(out@ + slice_from(self@.skip(i + 1), start as int, end as int, offset as int) =~= before + slice_from(rest, start as int, end as int, offset as int));
                },
            }
            i += 1;
        }
        assert(out@ + Seq::<OpView>::empty() =~= out@);
        out
    }
}

} // verus!
