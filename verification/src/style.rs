//! Text styles, the colour table that turns style names into weechat colour
//! codes, and the stack of active styles.
use crate::text::{copy_string, push_str, to_chars};
use vstd::prelude::*;
use vstd::string::StringExecFns;

verus! {

/// A text attribute that can be switched on and off in weechat output.
#[derive(Clone, Debug, PartialEq, Eq)]
pub enum Style {
    Bold,
    Underline,
    Italic,
    Reset,
    Color(String),
}

/// The mathematical value of a [`Style`].
pub enum StyleView {
    Bold,
    Underline,
    Italic,
    Reset,
    Color(Seq<char>),
}

impl View for Style {
    type V = StyleView;

    open spec fn view(&self) -> StyleView {
        match self {
            Style::Bold => StyleView::Bold,
            Style::Underline => StyleView::Underline,
            Style::Italic => StyleView::Italic,
            Style::Reset => StyleView::Reset,
            Style::Color(c) => StyleView::Color(c@),
        }
    }
}

/// The weechat colour name that switches a style on.
pub open spec fn style_name(s: StyleView) -> Seq<char> {
    match s {
        StyleView::Bold => "bold"@,
        StyleView::Underline => "underline"@,
        StyleView::Italic => "italic"@,
        StyleView::Reset => "reset"@,
        StyleView::Color(c) => c,
    }
}

/// The weechat colour name that switches a style off on its own, if there is one.
pub open spec fn unstyle_name(s: StyleView) -> Option<Seq<char>> {
    match s {
        StyleView::Bold => Some("-bold"@),
        StyleView::Underline => Some("-underline"@),
        StyleView::Italic => Some("-italic"@),
        _ => None,
    }
}

/// Position of a style's variant in the declaration order.
pub open spec fn rank(s: StyleView) -> int {
    match s {
        StyleView::Bold => 0,
        StyleView::Underline => 1,
        StyleView::Italic => 2,
        StyleView::Reset => 3,
        StyleView::Color(_) => 4,
    }
}

/// Lexicographic order of character sequences (the order of `String`).
pub open spec fn chars_lt(a: Seq<char>, b: Seq<char>) -> bool
    decreases a.len(),
{
    if b.len() == 0 {
        false
    } else if a.len() == 0 {
        true
    } else if a[0] != b[0] {
        (a[0] as u32) < (b[0] as u32)
    } else {
        chars_lt(a.drop_first(), b.drop_first())
    }
}

/// The order of styles: by variant, then colours by name.
pub open spec fn style_lt(a: StyleView, b: StyleView) -> bool {
    rank(a) < rank(b) || (a is Color && b is Color && chars_lt(a->Color_0, b->Color_0))
}

pub proof fn lemma_chars_lt_irrefl(a: Seq<char>)
    ensures
        !chars_lt(a, a),
    decreases a.len(),
{
    if a.len() > 0 {
        lemma_chars_lt_irrefl(a.drop_first());
    }
}

pub proof fn lemma_chars_lt_trans(a: Seq<char>, b: Seq<char>, c: Seq<char>)
    requires
        chars_lt(a, b),
        chars_lt(b, c),
    ensures
        chars_lt(a, c),
    decreases a.len(),
{
    if a.len() > 0 && b.len() > 0 && c.len() > 0 && a[0] == b[0] && b[0] == c[0] {
        lemma_chars_lt_trans(a.drop_first(), b.drop_first(), c.drop_first());
    }
}

pub proof fn lemma_chars_lt_total(a: Seq<char>, b: Seq<char>)
    ensures
        a == b || chars_lt(a, b) || chars_lt(b, a),
    decreases a.len(),
{
    if a.len() > 0 && b.len() > 0 {
        if a[0] == b[0] {
            lemma_chars_lt_total(a.drop_first(), b.drop_first());
            if a.drop_first() == b.drop_first() {
                assert(a =~= seq![a[0]] + a.drop_first());
                assert(b =~= seq![b[0]] + b.drop_first());
            }
        } else {
            vstd::utf8::char_u32_cast(a[0], a[0] as u32);
            vstd::utf8::char_u32_cast(b[0], b[0] as u32);
        }
    } else if a.len() == 0 && b.len() == 0 {
        assert(a =~= b);
    }
}

pub proof fn lemma_style_lt_irrefl(a: StyleView)
    ensures
        !style_lt(a, a),
{
    if let StyleView::Color(c) = a {
        lemma_chars_lt_irrefl(c);
    }
}

pub proof fn lemma_style_lt_trans(a: StyleView, b: StyleView, c: StyleView)
    requires
        style_lt(a, b),
        style_lt(b, c),
    ensures
        style_lt(a, c),
{
    if a is Color && b is Color && c is Color {
        lemma_chars_lt_trans(a->Color_0, b->Color_0, c->Color_0);
    }
}

pub proof fn lemma_style_lt_total(a: StyleView, b: StyleView)
    ensures
        a == b || style_lt(a, b) || style_lt(b, a),
{
    if a is Color && b is Color {
        lemma_chars_lt_total(a->Color_0, b->Color_0);
    }
}

pub proof fn lemma_style_lt_asym(a: StyleView, b: StyleView)
    requires
        style_lt(a, b),
    ensures
        !style_lt(b, a),
{
    if style_lt(b, a) {
        lemma_style_lt_trans(a, b, a);
        lemma_style_lt_irrefl(a);
    }
}

/// Each style strictly before the next: sorted and without repeats.
pub open spec fn strictly_sorted(r: Seq<StyleView>) -> bool {
    forall|i: int, j: int| 0 <= i < j < r.len() ==> style_lt(r[i], r[j])
}

/// `x` added at its place in the sorted sequence `r`, unless it is already there.
pub open spec fn insert_sorted(r: Seq<StyleView>, x: StyleView) -> Seq<StyleView>
    decreases r.len(),
{
    if r.len() == 0 {
        seq![x]
    } else if r[0] == x {
        r
    } else if style_lt(x, r[0]) {
        seq![x] + r
    } else {
        seq![r[0]] + insert_sorted(r.drop_first(), x)
    }
}

/// The distinct styles of `st`, sorted (what `sort` then `dedup` gives).
pub open spec fn unique(st: Seq<StyleView>) -> Seq<StyleView>
    decreases st.len(),
{
    if st.len() == 0 {
        seq![]
    } else {
        insert_sorted(unique(st.drop_last()), st.last())
    }
}

pub proof fn lemma_insert_sorted(r: Seq<StyleView>, x: StyleView)
    requires
        strictly_sorted(r),
    ensures
        strictly_sorted(insert_sorted(r, x)),
        forall|y: StyleView| #[trigger] insert_sorted(r, x).contains(y) <==> (r.contains(y) || y
            == x),
    decreases r.len(),
{
    if r.len() == 0 {
        assert(seq![x][0] == x);
    } else if r[0] == x {
    } else if style_lt(x, r[0]) {
        let s = seq![x] + r;
        assert forall|i: int, j: int| 0 <= i < j < s.len() implies style_lt(s[i], s[j]) by {
            if i == 0 && j > 1 {
                lemma_style_lt_trans(x, r[0], r[j - 1]);
            }
        }
        assert forall|y: StyleView| s.contains(y) implies (r.contains(y) || y == x) by {
            let k = choose|k: int| 0 <= k < s.len() && s[k] == y;
            if k > 0 {
                assert(s[k] == r[k - 1]);
                assert(r.contains(y));
            } else {
                assert(s[0] == x);
            }
        }
        assert forall|y: StyleView| (r.contains(y) || y == x) implies s.contains(y) by {
            if r.contains(y) {
                let k = choose|k: int| 0 <= k < r.len() && r[k] == y;
                assert(s[k + 1] == r[k]);
            } else {
                assert(s[0] == x);
            }
        }
    } else {
        lemma_style_lt_total(x, r[0]);
        let t = r.drop_first();
        assert(strictly_sorted(t)) by {
            assert forall|i: int, j: int| 0 <= i < j < t.len() implies style_lt(t[i], t[j]) by {
                assert(t[i] == r[i + 1] && t[j] == r[j + 1]);
            }
        }
        lemma_insert_sorted(t, x);
        let it = insert_sorted(t, x);
        let s = seq![r[0]] + it;
        assert forall|i: int, j: int| 0 <= i < j < s.len() implies style_lt(s[i], s[j]) by {
            if i == 0 {
                assert(it.contains(s[j])) by {
                    assert(it[j - 1] == s[j]);
                }
                if t.contains(s[j]) {
                    let k = choose|k: int| 0 <= k < t.len() && t[k] == s[j];
                    assert(r[k + 1] == s[j]);
                }
            }
        }
        assert forall|y: StyleView| s.contains(y) implies (r.contains(y) || y == x) by {
            let k = choose|k: int| 0 <= k < s.len() && s[k] == y;
            if k > 0 {
                assert(s[k] == it[k - 1]);
                assert(it.contains(y));
                if t.contains(y) {
                    let m = choose|m: int| 0 <= m < t.len() && t[m] == y;
                    assert(r[m + 1] == y);
                    assert(r.contains(y));
                }
            } else {
                assert(s[0] == r[0]);
                assert(r.contains(y));
            }
        }
        assert forall|y: StyleView| (r.contains(y) || y == x) implies s.contains(y) by {
            if r.contains(y) {
                let k = choose|k: int| 0 <= k < r.len() && r[k] == y;
                if k == 0 {
                    assert(s[0] == y);
                } else {
                    assert(t[k - 1] == y);
                    assert(t.contains(y));
                    assert(it.contains(y));
                    let m = choose|m: int| 0 <= m < it.len() && it[m] == y;
                    assert(s[m + 1] == it[m]);
                }
            } else {
                assert(it.contains(y));
                let m = choose|m: int| 0 <= m < it.len() && it[m] == y;
                assert(s[m + 1] == it[m]);
            }
        }
    }
}

/// The defining properties of [`unique`]: sorted without repeats, and the same styles.
pub proof fn lemma_unique(st: Seq<StyleView>)
    ensures
        strictly_sorted(unique(st)),
        forall|y: StyleView| unique(st).contains(y) <==> st.contains(y),
    decreases st.len(),
{
    if st.len() > 0 {
        lemma_unique(st.drop_last());
        lemma_insert_sorted(unique(st.drop_last()), st.last());
        assert forall|y: StyleView| unique(st).contains(y) <==> st.contains(y) by {
            if st.drop_last().contains(y) {
                let k = choose|k: int| 0 <= k < st.drop_last().len() && st.drop_last()[k] == y;
                assert(st[k] == y);
            }
            if st.contains(y) && y != st.last() {
                let k = choose|k: int| 0 <= k < st.len() && st[k] == y;
                assert(st.drop_last()[k] == y);
            }
        }
    }
}

/// Inserting at the first position not before `x` is [`insert_sorted`].
proof fn lemma_insert_at(r: Seq<StyleView>, x: StyleView, j: int)
    requires
        strictly_sorted(r),
        0 <= j <= r.len(),
        forall|k: int| 0 <= k < j ==> style_lt(r[k], x),
        j < r.len() ==> !style_lt(r[j], x),
    ensures
        insert_sorted(r, x) == (if j < r.len() && r[j] == x {
            r
        } else {
            r.insert(j, x)
        }),
    decreases r.len(),
{
    if r.len() == 0 {
        assert(r.insert(0, x) =~= seq![x]);
    } else if j == 0 {
        lemma_style_lt_total(x, r[0]);
        if r[0] != x {
            assert(r.insert(0, x) =~= seq![x] + r);
        }
    } else {
        lemma_style_lt_asym(r[0], x);
        lemma_style_lt_irrefl(x);
        let t = r.drop_first();
        assert(strictly_sorted(t)) by {
            assert forall|i: int, k: int| 0 <= i < k < t.len() implies style_lt(t[i], t[k]) by {
                assert(t[i] == r[i + 1] && t[k] == r[k + 1]);
            }
        }
        lemma_insert_at(t, x, j - 1);
        if j < r.len() && r[j] == x {
            assert(seq![r[0]] + t =~= r);
        } else {
            assert(seq![r[0]] + t.insert(j - 1, x) =~= r.insert(j, x));
        }
    }
}

/// The weechat colour code of a colour name in table `t`: its entry, or the name itself.
pub open spec fn code_in(t: Seq<(Seq<char>, Seq<char>)>, name: Seq<char>) -> Seq<char>
    decreases t.len(),
{
    if t.len() == 0 {
        name
    } else if t[0].0 == name {
        t[0].1
    } else {
        code_in(t.drop_first(), name)
    }
}

/// Maps weechat colour names to the codes weechat prints for them.
///
/// A name without an entry stands for itself, so the empty table renders
/// styles by their names.
pub struct ColorTable {
    entries: Vec<(String, String)>,
}

impl View for ColorTable {
    type V = Seq<(Seq<char>, Seq<char>)>;

    closed spec fn view(&self) -> Seq<(Seq<char>, Seq<char>)> {
        self.entries@.map_values(|e: (String, String)| (e.0@, e.1@))
    }
}

impl ColorTable {
    /// The table without entries: every name is its own code.
    pub fn identity() -> (t: ColorTable)
        ensures
            t@ == Seq::<(Seq<char>, Seq<char>)>::empty(),
    {
        let t = ColorTable { entries: Vec::new() };
        assert(t@ =~= Seq::<(Seq<char>, Seq<char>)>::empty());
        t
    }

    /// Sets the code of `name`; it replaces any earlier entry for the name.
    pub fn set(&mut self, name: &str, code: &str)
        ensures
            final(self)@ == seq![(name@, code@)] + old(self)@,
    {
        let e = (String::from_str(name), String::from_str(code));
        self.entries.insert(0, e);
        assert(self@ =~= seq![(name@, code@)] + old(self)@);
    }

    /// The code of `name` in this table.
    pub fn code(&self, name: &str) -> (c: String)
        ensures
            c@ == code_in(self@, name@),
    {
        let mut i: usize = 0;
        let wanted = String::from_str(name);
        proof {
            assert(self@.skip(0) =~= self@);
        }
        while i < self.entries.len()
            invariant
                i <= self.entries.len(),
                self@.len() == self.entries@.len(),
                wanted@ == name@,
                code_in(self@.skip(i as int), name@) == code_in(self@, name@),
            decreases self.entries.len() - i,
        {
            let ghost rest = self@.skip(i as int);
            assert(rest.len() > 0);
            assert(rest[0] == (self.entries@[i as int].0@, self.entries@[i as int].1@));
            let entry = &self.entries[i];
            let same = entry.0.eq(&wanted);
            assert(same == (entry.0@ == name@));
            if same {
                assert(rest[0].0 == name@);
                assert(code_in(rest, name@) == rest[0].1);
                return copy_string(&self.entries[i].1);
            }
            assert(rest[0].0 != name@);
            assert(rest.drop_first() =~= self@.skip(i + 1));
            assert(code_in(rest, name@) == code_in(rest.drop_first(), name@));
            i += 1;
        }
        String::from_str(name)
    }
}

impl Style {
    /// A colour style for the weechat colour `color`.
    pub fn color(color: &str) -> (s: Style)
        ensures
            s@ == StyleView::Color(color@),
    {
        Style::Color(String::from_str(color))
    }

    /// A copy of this style.
    pub fn duplicate(&self) -> (s: Style)
        ensures
            s@ == self@,
    {
        match self {
            Style::Bold => Style::Bold,
            Style::Underline => Style::Underline,
            Style::Italic => Style::Italic,
            Style::Reset => Style::Reset,
            Style::Color(c) => Style::Color(copy_string(c)),
        }
    }

    /// Whether both are the same style.
    pub fn same(&self, other: &Style) -> (b: bool)
        ensures
            b == (self@ == other@),
    {
        match (self, other) {
            (Style::Bold, Style::Bold) => true,
            (Style::Underline, Style::Underline) => true,
            (Style::Italic, Style::Italic) => true,
            (Style::Reset, Style::Reset) => true,
            (Style::Color(a), Style::Color(b)) => *a == *b,
            _ => false,
        }
    }

    /// The weechat colour name that switches this style on.
    pub fn name(&self) -> (n: String)
        ensures
            n@ == style_name(self@),
    {
        match self {
            Style::Bold => String::from_str("bold"),
            Style::Underline => String::from_str("underline"),
            Style::Italic => String::from_str("italic"),
            Style::Reset => String::from_str("reset"),
            Style::Color(c) => copy_string(c),
        }
    }

    /// The weechat code that switches this style on.
    pub fn style(&self, table: &ColorTable) -> (c: String)
        ensures
            c@ == code_in(table@, style_name(self@)),
    {
        let n = self.name();
        table.code(n.as_str())
    }

    /// The weechat code that switches this style off on its own, if there is one.
    pub fn try_unstyle(&self, table: &ColorTable) -> (c: Option<String>)
        ensures
            match unstyle_name(self@) {
                Some(u) => c is Some && c->Some_0@ == code_in(table@, u),
                None => c is None,
            },
    {
        match self {
            Style::Bold => Some(table.code("-bold")),
            Style::Underline => Some(table.code("-underline")),
            Style::Italic => Some(table.code("-italic")),
            Style::Reset | Style::Color(_) => None,
        }
    }

    fn rank_of(&self) -> (r: u8)
        ensures
            r as int == rank(self@),
    {
        match self {
            Style::Bold => 0,
            Style::Underline => 1,
            Style::Italic => 2,
            Style::Reset => 3,
            Style::Color(_) => 4,
        }
    }

    /// Whether this style comes strictly before `other` in the order of styles.
    pub fn before(&self, other: &Style) -> (b: bool)
        ensures
            b == style_lt(self@, other@),
    {
        let ra = self.rank_of();
        let rb = other.rank_of();
        if ra != rb {
            return ra < rb;
        }
        match (self, other) {
            (Style::Color(a), Style::Color(b)) => chars_before(a.as_str(), b.as_str()),
            _ => false,
        }
    }
}

/// Whether `a` comes strictly before `b` in the order of strings.
fn chars_before(a: &str, b: &str) -> (r: bool)
    ensures
        r == chars_lt(a@, b@),
{
    let va = to_chars(a);
    let vb = to_chars(b);
    let mut k: usize = 0;
    assert(va@.skip(0) =~= va@);
    assert(vb@.skip(0) =~= vb@);
    while k < va.len() && k < vb.len()
        invariant
            k <= va.len(),
            k <= vb.len(),
            chars_lt(va@.skip(k as int), vb@.skip(k as int)) == chars_lt(a@, b@),
        decreases va.len() - k,
    {
        let ghost sa = va@.skip(k as int);
        let ghost sb = vb@.skip(k as int);
        assert(sa[0] == va@[k as int] && sb[0] == vb@[k as int]);
        if va[k] != vb[k] {
            return (va[k] as u32) < (vb[k] as u32);
        }
        assert(sa.drop_first() =~= va@.skip(k + 1));
        assert(sb.drop_first() =~= vb@.skip(k + 1));
        k += 1;
    }
    k < vb.len()
}

/// Index of the last occurrence of `x` in `st`, or -1.
pub open spec fn last_index(st: Seq<StyleView>, x: StyleView) -> int
    decreases st.len(),
{
    if st.len() == 0 {
        -1
    } else if st.last() == x {
        st.len() - 1
    } else {
        last_index(st.drop_last(), x)
    }
}

/// `st` without the last occurrence of `x`.
pub open spec fn remove_last(st: Seq<StyleView>, x: StyleView) -> Seq<StyleView> {
    st.remove(last_index(st, x))
}

pub proof fn lemma_last_index(st: Seq<StyleView>, x: StyleView)
    ensures
        -1 <= last_index(st, x) < st.len(),
        last_index(st, x) >= 0 <==> st.contains(x),
        last_index(st, x) >= 0 ==> st[last_index(st, x)] == x,
        forall|k: int| last_index(st, x) < k < st.len() ==> st[k] != x,
    decreases st.len(),
{
    if st.len() > 0 {
        lemma_last_index(st.drop_last(), x);
        if st.last() != x {
            assert forall|k: int| last_index(st, x) < k < st.len() implies st[k] != x by {
                if k < st.len() - 1 {
                    assert(st[k] == st.drop_last()[k]);
                }
            }
            if st.contains(x) {
                let k = choose|k: int| 0 <= k < st.len() && st[k] == x;
                assert(st.drop_last()[k] == x);
            }
            if st.drop_last().contains(x) {
                let k = choose|k: int| 0 <= k < st.drop_last().len() && st.drop_last()[k] == x;
                assert(st[k] == x);
            }
        } else {
            assert(st[st.len() - 1] == x);
        }
    }
}

proof fn lemma_last_index_is(st: Seq<StyleView>, x: StyleView, i: int)
    requires
        0 <= i < st.len(),
        st[i] == x,
        forall|k: int| i < k < st.len() ==> st[k] != x,
    ensures
        last_index(st, x) == i,
    decreases st.len(),
{
    if i < st.len() - 1 {
        lemma_last_index_is(st.drop_last(), x, i);
    }
}

/// The concatenated codes of the styles in `r`.
pub open spec fn codes(t: Seq<(Seq<char>, Seq<char>)>, r: Seq<StyleView>) -> Seq<char>
    decreases r.len(),
{
    if r.len() == 0 {
        seq![]
    } else {
        codes(t, r.drop_last()) + code_in(t, style_name(r.last()))
    }
}

/// What switches off all the styles of the sorted list `r`: each one's own
/// switch-off code, or a single reset where one of them has none.
pub open spec fn uncodes(t: Seq<(Seq<char>, Seq<char>)>, r: Seq<StyleView>) -> Seq<char> {
    if exists|i: int| 0 <= i < r.len() && unstyle_name(r[i]) is None {
        code_in(t, "reset"@)
    } else {
        unstyle_codes(t, r)
    }
}

/// The concatenated switch-off codes of the styles in `r`.
pub open spec fn unstyle_codes(t: Seq<(Seq<char>, Seq<char>)>, r: Seq<StyleView>) -> Seq<char>
    decreases r.len(),
{
    if r.len() == 0 {
        seq![]
    } else {
        unstyle_codes(t, r.drop_last()) + code_in(t, unstyle_name(r.last())->Some_0)
    }
}

/// The stack of active styles.
pub struct StyleState {
    stack: Vec<Style>,
}

impl View for StyleState {
    type V = Seq<StyleView>;

    closed spec fn view(&self) -> Seq<StyleView> {
        self.stack@.map_values(|s: Style| s@)
    }
}

impl StyleState {
    /// The empty stack.
    pub fn new() -> (s: StyleState)
        ensures
            s@ == Seq::<StyleView>::empty(),
    {
        let s = StyleState { stack: Vec::new() };
        assert(s@ =~= Seq::<StyleView>::empty());
        s
    }

    /// Whether `style` is active.
    pub fn contains(&self, style: &Style) -> (b: bool)
        ensures
            b == self@.contains(style@),
    {
        let mut i: usize = 0;
        while i < self.stack.len()
            invariant
                i <= self.stack.len(),
                self@.len() == self.stack@.len(),
                forall|k: int| 0 <= k < i ==> self@[k] != style@,
            decreases self.stack.len() - i,
        {
            if self.stack[i].same(style) {
                assert(self@[i as int] == style@);
                return true;
            }
            i += 1;
        }
        false
    }

    /// Activates `style`.
    pub fn push(&mut self, style: Style)
        ensures
            final(self)@ == old(self)@.push(style@),
    {
        self.stack.push(style);
        assert(self@ =~= old(self)@.push(style@));
    }

    /// Deactivates the most recent activation of `style`, which must be active.
    pub fn pop(&mut self, style: &Style)
        requires
            old(self)@.contains(style@),
        ensures
            final(self)@ == remove_last(old(self)@, style@),
    {
        let ghost st = self@;
        assert(st == old(self)@);
        let mut idx = self.stack.len();
        while idx > 0
            invariant
                idx <= self.stack.len(),
                self@ == st,
                st == old(self)@,
                self@.len() == self.stack@.len(),
                st.contains(style@),
                forall|k: int| idx <= k < st.len() ==> st[k] != style@,
            decreases idx,
        {
            if self.stack[idx - 1].same(style) {
                proof {
                    lemma_last_index_is(st, style@, idx - 1);
                }
                self.stack.remove(idx - 1);
                assert(self@ =~= st.remove(idx - 1));
                assert(remove_last(st, style@) == st.remove(idx - 1));
                assert(self@ == remove_last(old(self)@, style@));
                return;
            }
            idx -= 1;
        }
        proof {
            let k = choose|k: int| 0 <= k < st.len() && st[k] == style@;
            assert(false);
        }
    }

    /// The active styles, the first activated first.
    pub fn into_styles(self) -> (r: Vec<Style>)
        ensures
            r@.map_values(|s: Style| s@) == self@,
    {
        self.stack
    }

    /// The active styles, sorted and without repeats.
    pub fn unique_styles(&self) -> (r: Vec<Style>)
        ensures
            r@.map_values(|s: Style| s@) == unique(self@),
            strictly_sorted(unique(self@)),
            forall|y: StyleView| unique(self@).contains(y) <==> self@.contains(y),
    {
        let mut r: Vec<Style> = Vec::new();
        let mut i: usize = 0;
        proof {
            lemma_unique(self@);
            assert(self@.take(0) =~= Seq::<StyleView>::empty());
            assert(r@.map_values(|s: Style| s@) =~= Seq::<StyleView>::empty());
        }
        while i < self.stack.len()
            invariant
                i <= self.stack.len(),
                self@.len() == self.stack@.len(),
                r@.map_values(|s: Style| s@) == unique(self@.take(i as int)),
            decreases self.stack.len() - i,
        {
            let ghost rv = r@.map_values(|s: Style| s@);
            let x = &self.stack[i];
            proof {
                lemma_unique(self@.take(i as int));
                assert(self@.take(i + 1).drop_last() =~= self@.take(i as int));
                assert(self@.take(i + 1).last() == x@);
            }
            let mut j: usize = 0;
            while j < r.len() && r[j].before(x)
                invariant
                    j <= r.len(),
                    rv == r@.map_values(|s: Style| s@),
                    forall|k: int| 0 <= k < j ==> style_lt(rv[k], x@),
                decreases r.len() - j,
            {
                j += 1;
            }
            proof {
                lemma_insert_at(rv, x@, j as int);
            }
            if j < r.len() && r[j].same(x) {
            } else {
                r.insert(j, x.duplicate());
                assert(r@.map_values(|s: Style| s@) =~= rv.insert(j as int, x@));
            }
            i += 1;
        }
        assert(self@.take(self@.len() as int) =~= self@);
        r
    }

    /// The codes that switch on every active style.
    pub fn style(&self, table: &ColorTable) -> (out: String)
        ensures
            out@ == codes(table@, unique(self@)),
    {
        let styles = self.unique_styles();
        let ghost u = unique(self@);
        let mut out = String::new();
        let mut i: usize = 0;
        assert(u.take(0) =~= Seq::<StyleView>::empty());
        while i < styles.len()
            invariant
                i <= styles.len(),
                styles@.map_values(|s: Style| s@) == u,
                u == unique(self@),
                out@ == codes(table@, u.take(i as int)),
            decreases styles.len() - i,
        {
            let c = styles[i].style(table);
            assert(u[i as int] == styles@[i as int]@);
            assert(u.take(i + 1).drop_last() =~= u.take(i as int));
            push_str(&mut out, c.as_str());
            i += 1;
        }
        assert(u.take(u.len() as int) =~= u);
        out
    }

    /// The codes that switch off every active style.
    pub fn unstyle(&self, table: &ColorTable) -> (out: String)
        ensures
            out@ == uncodes(table@, unique(self@)),
    {
        let styles = self.unique_styles();
        let ghost u = unique(self@);
        let mut out = String::new();
        let mut i: usize = 0;
        assert(u.take(0) =~= Seq::<StyleView>::empty());
        while i < styles.len()
            invariant
                i <= styles.len(),
                styles@.map_values(|s: Style| s@) == u,
                u == unique(self@),
                out@ == unstyle_codes(table@, u.take(i as int)),
                forall|k: int| 0 <= k < i ==> unstyle_name(u[k]) is Some,
            decreases styles.len() - i,
        {
            assert(u[i as int] == styles@[i as int]@);
            match styles[i].try_unstyle(table) {
                Some(c) => {
                    assert(u.take(i + 1).drop_last() =~= u.take(i as int));
                    push_str(&mut out, c.as_str());
                },
                None => {
                    assert(i < u.len());
                    assert(unstyle_name(u[i as int]) is None);
                    assert(uncodes(table@, u) == code_in(table@, "reset"@));
                    let r = table.code("reset");
                    assert(r@ == code_in(table@, "reset"@));
                    return r;
                },
            }
            i += 1;
        }
        assert(u.take(u.len() as int) =~= u);
        out
    }
}

} // verus!
