//! What holds of styled strings across their operations.
use crate::style::{codes, lemma_last_index, remove_last, uncodes, unique, StyleView};
use crate::styled_string::{
    at_least_zero, balanced, built, closing, current, find_in, lemma_closing, lemma_split_len,
    lemma_stack_concat, no_char, pieces_ops, render, slice_from, split_on, stack_of, text_ops,
    OpView,
};
use crate::text::{
    byte_len, char_at_byte, cut, first_occurrence, lemma_byte_len_concat, lemma_char_at_byte,
    occurs_at,
};
use vstd::prelude::*;

verus! {

/// The pieces of a split text joined again with the separator between them.
pub open spec fn join_on(p: Seq<Seq<char>>, c: char) -> Seq<char>
    decreases p.len(),
{
    if p.len() == 0 {
        seq![]
    } else if p.len() == 1 {
        p[0]
    } else {
        join_on(p.drop_last(), c) + seq![c] + p.last()
    }
}

proof fn lemma_join_extend_last(p: Seq<Seq<char>>, c: char, x: char)
    requires
        p.len() >= 1,
    ensures
        join_on(p.update(p.len() - 1, p.last().push(x)), c) == join_on(p, c).push(x),
{
    let q = p.update(p.len() - 1, p.last().push(x));
    if p.len() == 1 {
        assert(q[0] == p[0].push(x));
    } else {
        assert(q.drop_last() =~= p.drop_last());
        assert(join_on(q, c) =~= join_on(p, c).push(x));
    }
}

/// Splitting a text at a character and joining the pieces gives the text back.
pub proof fn lemma_split_join(s: Seq<char>, c: char)
    ensures
        join_on(split_on(s, c), c) == s,
    decreases s.len(),
{
    if s.len() > 0 {
        let r = split_on(s.drop_last(), c);
        lemma_split_join(s.drop_last(), c);
        lemma_split_len(s.drop_last(), c);
        if s.last() == c {
            assert(r.push(seq![]).drop_last() =~= r);
            assert(join_on(r.push(seq![]), c) =~= s);
        } else {
            lemma_join_extend_last(r, c, s.last());
            assert(s.drop_last().push(s.last()) =~= s);
        }
    }
}

/// Operations made of literals and line breaks only switch no style on or off.
pub proof fn lemma_pieces_plain(p: Seq<Seq<char>>)
    ensures
        stack_of(pieces_ops(p)) == Seq::<StyleView>::empty(),
        balanced(pieces_ops(p)),
    decreases p.len(),
{
    if p.len() == 1 {
        let o = pieces_ops(p);
        assert(o.drop_last() =~= Seq::<OpView>::empty());
        assert(o.last() == OpView::Literal(p[0]));
        assert(stack_of(o) == stack_of(o.drop_last()));
        assert(balanced(o) == balanced(o.drop_last()));
    } else if p.len() > 1 {
        lemma_pieces_plain(p.drop_last());
        let a = pieces_ops(p.drop_last());
        let o = pieces_ops(p);
        let o1 = o.drop_last();
        assert(o1 =~= a.push(OpView::Newline));
        assert(o1.drop_last() =~= a);
        assert(o.last() == OpView::Literal(p.last()));
        assert(o1.last() == OpView::Newline);
        assert(stack_of(o1) == stack_of(a));
        assert(balanced(o1) == balanced(a));
        assert(stack_of(o) == stack_of(o1));
        assert(balanced(o) == balanced(o1));
    }
}

proof fn lemma_render_pieces(t: Seq<(Seq<char>, Seq<char>)>, p: Seq<Seq<char>>)
    ensures
        render(t, pieces_ops(p)) == join_on(p, '\n'),
    decreases p.len(),
{
    if p.len() == 1 {
        let o = pieces_ops(p);
        assert(o.drop_last() =~= Seq::<OpView>::empty());
        assert(o.last() == OpView::Literal(p[0]));
        assert(render(t, o) == render(t, o.drop_last()) + p[0]);
        assert(Seq::<char>::empty() + p[0] =~= p[0]);
    } else if p.len() > 1 {
        lemma_render_pieces(t, p.drop_last());
        lemma_pieces_plain(p.drop_last());
        let a = pieces_ops(p.drop_last());
        let o = pieces_ops(p);
        let o1 = o.drop_last();
        assert(o1 =~= a.push(OpView::Newline));
        assert(o1.drop_last() =~= a);
        assert(o.last() == OpView::Literal(p.last()));
        assert(o1.last() == OpView::Newline);
        assert(unique(Seq::<StyleView>::empty()) =~= Seq::<StyleView>::empty());
        assert(codes(t, Seq::<StyleView>::empty()) =~= Seq::<char>::empty());
        assert(render(t, o1) == render(t, a) + seq!['\n'] + codes(t, unique(stack_of(a))));
        assert(render(t, o) == render(t, o1) + p.last());
        assert(render(t, o) =~= join_on(p, '\n'));
    }
}

/// Plain text, without styles, is built into itself, line breaks included.
pub proof fn law_plain_text_builds_to_itself(t: Seq<(Seq<char>, Seq<char>)>, s: Seq<char>)
    ensures
        built(t, text_ops(s)) == s,
        balanced(text_ops(s)),
{
    let p = split_on(s, '\n');
    lemma_split_len(s, '\n');
    lemma_render_pieces(t, p);
    lemma_split_join(s, '\n');
    lemma_pieces_plain(p);
    assert(unique(Seq::<StyleView>::empty()) =~= Seq::<StyleView>::empty());
    assert(current(text_ops(s)) =~= Seq::<StyleView>::empty());
    assert(uncodes(t, Seq::<StyleView>::empty()) =~= Seq::<char>::empty());
    assert(s + Seq::<char>::empty() =~= s);
}

/// Styled text added with `push_styled_str` leaves the active styles as they were.
pub proof fn law_styled_text_keeps_styles(a: Seq<OpView>, x: StyleView, s: Seq<char>)
    ensures
        stack_of(a + seq![OpView::Push(x)] + text_ops(s) + seq![OpView::Pop(x)]) == stack_of(a),
        balanced(a) ==> balanced(a + seq![OpView::Push(x)] + text_ops(s) + seq![OpView::Pop(x)]),
{
    let a1 = a + seq![OpView::Push(x)];
    let tx = text_ops(s);
    let whole = a1 + tx + seq![OpView::Pop(x)];
    lemma_pieces_plain(split_on(s, '\n'));
    assert(a1.drop_last() =~= a);
    lemma_stack_concat(a1, tx);
    assert(stack_of(a1) + Seq::<StyleView>::empty() =~= stack_of(a1));
    assert(whole.drop_last() =~= a1 + tx);
    let st = stack_of(a).push(x);
    lemma_last_index(st, x);
    assert(st[st.len() - 1] == x);
    crate::style::lemma_last_index(st, x);
    assert(remove_last(st, x) =~= stack_of(a)) by {
        lemma_last_index_end(st, x);
    }
}

proof fn lemma_last_index_end(st: Seq<StyleView>, x: StyleView)
    requires
        st.len() > 0,
        st.last() == x,
    ensures
        remove_last(st, x) == st.drop_last(),
{
    assert(st.remove(st.len() - 1) =~= st.drop_last());
}

/// Absorbing a string leaves the styles active before it as they were:
/// every activation the absorbed string left on is switched off again.
pub proof fn law_absorb_keeps_styles(a: Seq<OpView>, b: Seq<OpView>)
    requires
        balanced(b),
    ensures
        stack_of(a + b + closing(b)) == stack_of(a),
        current(a + b + closing(b)) == current(a),
{
    lemma_closing(a, b);
}

/// A text without the separator splits into itself alone.
proof fn lemma_split_none(s: Seq<char>, c: char)
    requires
        no_char(s, c),
    ensures
        split_on(s, c) == seq![s],
    decreases s.len(),
{
    if s.len() == 0 {
        assert(s =~= Seq::<char>::empty());
    } else {
        assert(no_char(s.drop_last(), c)) by {
            assert forall|i: int| 0 <= i < s.drop_last().len() implies s.drop_last()[i] != c by {
                assert(s.drop_last()[i] == s[i]);
            }
        }
        lemma_split_none(s.drop_last(), c);
        assert(s[s.len() - 1] != c);
        assert(s.drop_last().push(s.last()) =~= s);
        assert(split_on(s, c) =~= seq![s]);
    }
}

/// Splitting a text that starts with a part free of the separator: that
/// part starts the first piece.
proof fn lemma_split_prefix(a: Seq<char>, b: Seq<char>, c: char)
    requires
        no_char(a, c),
    ensures
        split_on(a + b, c).len() == split_on(b, c).len(),
        split_on(a + b, c)[0] == a + split_on(b, c)[0],
    decreases b.len(),
{
    if b.len() == 0 {
        assert(a + b =~= a);
        lemma_split_none(a, c);
        assert(a + split_on(b, c)[0] =~= a);
    } else {
        let b2 = b.drop_last();
        let x = b.last();
        assert((a + b).drop_last() =~= a + b2);
        assert((a + b).last() == x);
        lemma_split_prefix(a, b2, c);
        lemma_split_len(b2, c);
        let l = split_on(a + b2, c);
        let r = split_on(b2, c);
        if x == c {
            assert(split_on(a + b, c) == l.push(seq![]));
            assert(split_on(b, c) == r.push(seq![]));
        } else {
            assert(split_on(a + b, c) == l.update(l.len() - 1, l.last().push(x)));
            assert(split_on(b, c) == r.update(r.len() - 1, r.last().push(x)));
            if l.len() == 1 {
                assert((a + r[0]).push(x) =~= a + r[0].push(x));
            }
        }
    }
}

/// The first operation of the pieces of a text is the first piece.
proof fn lemma_pieces_first(p: Seq<Seq<char>>)
    requires
        p.len() >= 1,
    ensures
        pieces_ops(p).len() >= 1,
        pieces_ops(p)[0] == OpView::Literal(p[0]),
    decreases p.len(),
{
    if p.len() > 1 {
        lemma_pieces_first(p.drop_last());
        assert(p.drop_last()[0] == p[0]);
    }
}

/// `find` and `slice` count the same bytes up to the first line break:
/// where the pattern occurs before any line break of the text, `find`
/// finds it, and slicing from there over the pattern's length in bytes
/// gives back just the pattern.
pub proof fn law_find_then_slice(t: Seq<char>, p: Seq<char>)
    requires
        exists|i: int| occurs_at(t, p, i) && no_char(#[trigger] t.take(i + p.len()), '\n'),
    ensures
        find_in(text_ops(t), p, 0) is Some,
        slice_from(
            text_ops(t),
            find_in(text_ops(t), p, 0)->Some_0,
            find_in(text_ops(t), p, 0)->Some_0 + byte_len(p),
            0,
        ) == seq![OpView::Literal(p)],
{
    let i = choose|i: int| occurs_at(t, p, i) && no_char(#[trigger] t.take(i + p.len()), '\n');
    let m = i + p.len();
    let head = t.take(m);
    assert(head + t.skip(m) =~= t);
    lemma_split_prefix(head, t.skip(m), '\n');
    lemma_split_len(t.skip(m), '\n');
    let pieces = split_on(t, '\n');
    let t0 = pieces[0];
    assert(t0 == head + split_on(t.skip(m), '\n')[0]);
    assert(occurs_at(t0, p, i)) by {
        assert(t0.subrange(i, m) =~= t.subrange(i, m));
    }
    lemma_pieces_first(pieces);
    let ops = text_ops(t);
    assert(ops[0] == OpView::Literal(t0));
    assert(first_occurrence(t0, p) is Some) by {
        reveal(first_occurrence);
    }
    let i0 = first_occurrence(t0, p)->Some_0;
    assert(occurs_at(t0, p, i0)) by {
        reveal(first_occurrence);
        lemma_first_exists(t0, p, i);
    }
    let s = byte_len(t0.take(i0)) as int;
    assert(find_in(ops, p, 0) == Some(s));
    lemma_cut_found(t0, p, i0);
}

/// Where `p` occurs, it occurs a first time.
proof fn lemma_first_exists(t: Seq<char>, p: Seq<char>, k: int)
    requires
        occurs_at(t, p, k),
    ensures
        exists|m: int| occurs_at(t, p, m) && forall|j: int| 0 <= j < m ==> !occurs_at(t, p, j),
    decreases k,
{
    if exists|j: int| 0 <= j < k && occurs_at(t, p, j) {
        let j = choose|j: int| 0 <= j < k && occurs_at(t, p, j);
        lemma_first_exists(t, p, j);
    } else {
        assert(occurs_at(t, p, k) && forall|j: int| 0 <= j < k ==> !occurs_at(t, p, j));
    }
}

/// The bytes of an occurrence of `p` in `t` cut out `p`.
proof fn lemma_cut_found(t: Seq<char>, p: Seq<char>, i: int)
    requires
        occurs_at(t, p, i),
    ensures
        ({
            let s = byte_len(t.take(i)) as int;
            let e = s + byte_len(p);
            &&& e <= byte_len(t)
            &&& s <= byte_len(t)
            &&& cut(t, at_least_zero(s), e) == p
            &&& forall|ops: Seq<OpView>|
                ops.len() >= 1 && ops[0] == OpView::Literal(t) ==> #[trigger] slice_from(ops, s, e, 0)
                    == seq![OpView::Literal(p)]
        }),
{
    let m = i + p.len();
    let s = byte_len(t.take(i)) as int;
    let e = s + byte_len(p);
    assert(t.take(m) =~= t.take(i) + p);
    lemma_byte_len_concat(t.take(i), p);
    assert(t =~= t.take(m) + t.skip(m));
    lemma_byte_len_concat(t.take(m), t.skip(m));
    lemma_char_at_byte(t, s, i);
    lemma_char_at_byte(t, e, m);
    assert(t.subrange(i, m) == p);
    assert(cut(t, at_least_zero(s), e) == p);
    assert forall|ops: Seq<OpView>|
        ops.len() >= 1 && ops[0] == OpView::Literal(t) implies #[trigger] slice_from(ops, s, e, 0)
            == seq![OpView::Literal(p)] by {
        assert(slice_from(ops, s, e, 0) =~= seq![OpView::Literal(p)]);
    }
}

} // verus!
