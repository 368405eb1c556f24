//! The member lists Discord streams for a guild, and the nick list entries
//! the plugin makes of members.
use crate::directory::{
    best_colored, color_name, highest_role, highest_role_info, known_roles, member_color,
    Directory, MemberInfo,
};
use crate::style::ColorTable;
use crate::styled_string::built;
use crate::text::copy_string;
use crate::utils::{colorize_string, colorized, decimal, u64_to_string};
use vstd::prelude::*;

verus! {

/// One operation of a member list update.
pub enum ListOp<T> {
    /// Replace the items from `start` on with `items`, adding those past the end.
    Sync { start: u64, items: Vec<T> },
    /// Replace the item at `index`.
    Update { index: u64, item: T },
    /// Remove the item at `index`.
    Delete { index: u64 },
    /// Insert an item at `index`.
    Insert { index: u64, item: T },
    /// Remove the items from `start` to `end`, both included.
    Invalidate { start: u64, end: u64 },
    /// An operation this plugin does not know.
    Unknown,
}

/// A sync of `items` at `offset`, one item after the other.
pub open spec fn synced<T>(l: Seq<T>, offset: int, items: Seq<T>) -> Seq<T>
    decreases items.len(),
{
    if items.len() == 0 {
        l
    } else {
        let prev = synced(l, offset, items.drop_last());
        let i = offset + items.len() - 1;
        if i < prev.len() {
            prev.update(i, items.last())
        } else {
            prev.push(items.last())
        }
    }
}

/// The list after one operation.
pub open spec fn applied_op<T>(l: Seq<T>, op: ListOp<T>) -> Seq<T> {
    match op {
        ListOp::Sync { start, items } => synced(l, start as int, items@),
        ListOp::Update { index, item } => l.update(index as int, item),
        ListOp::Delete { index } => l.remove(index as int),
        ListOp::Insert { index, item } => l.insert(index as int, item),
        ListOp::Invalidate { start, end } => l.subrange(0, start as int) + l.subrange(
            end + 1,
            l.len() as int,
        ),
        ListOp::Unknown => l,
    }
}

/// The operation can be applied: it is known, and its index lies in the
/// list (or, for an insertion, at its end); a range ends in the list and
/// starts no later than just after its end.
pub open spec fn op_ok<T>(l: Seq<T>, op: ListOp<T>) -> bool {
    match op {
        ListOp::Sync { .. } => true,
        ListOp::Update { index, .. } => index < l.len(),
        ListOp::Delete { index } => index < l.len(),
        ListOp::Insert { index, .. } => index <= l.len(),
        ListOp::Invalidate { start, end } => start <= end + 1 && end < l.len(),
        ListOp::Unknown => false,
    }
}

/// The list after the operations, in order.
pub open spec fn applied_ops<T>(l: Seq<T>, ops: Seq<ListOp<T>>) -> Seq<T>
    decreases ops.len(),
{
    if ops.len() == 0 {
        l
    } else {
        applied_op(applied_ops(l, ops.drop_last()), ops.last())
    }
}

/// Each operation can be applied where it comes.
pub open spec fn ops_ok<T>(l: Seq<T>, ops: Seq<ListOp<T>>) -> bool
    decreases ops.len(),
{
    if ops.len() == 0 {
        true
    } else {
        ops_ok(l, ops.drop_last()) && op_ok(applied_ops(l, ops.drop_last()), ops.last())
    }
}

/// The length of a list after a sync of `n` items at `offset`.
pub open spec fn sync_len(len: int, offset: int, n: int) -> int {
    if offset >= len {
        len + n
    } else if offset + n <= len {
        len
    } else {
        offset + n
    }
}

proof fn lemma_synced_len<T>(l: Seq<T>, offset: int, items: Seq<T>)
    requires
        offset >= 0,
    ensures
        synced(l, offset, items).len() == sync_len(l.len() as int, offset, items.len() as int),
    decreases items.len(),
{
    if items.len() > 0 {
        lemma_synced_len(l, offset, items.drop_last());
    }
}

/// The length of a list after an operation that can be applied.
pub open spec fn op_len<T>(len: int, op: ListOp<T>) -> int {
    match op {
        ListOp::Sync { start, items } => sync_len(len, start as int, items@.len() as int),
        ListOp::Update { .. } => len,
        ListOp::Delete { .. } => len - 1,
        ListOp::Insert { .. } => len + 1,
        ListOp::Invalidate { start, end } => len - (end + 1 - start),
        ListOp::Unknown => len,
    }
}

proof fn lemma_applied_op_len<T>(l: Seq<T>, op: ListOp<T>)
    requires
        op_ok(l, op),
    ensures
        applied_op(l, op).len() == op_len(l.len() as int, op),
{
    if let ListOp::Sync { start, items } = op {
        lemma_synced_len(l, start as int, items@);
    }
}

/// An operation that cannot be applied spoils every longer list of operations.
proof fn lemma_ops_not_ok<T>(l: Seq<T>, ops: Seq<ListOp<T>>, k: int)
    requires
        0 <= k <= ops.len(),
        !ops_ok(l, ops.take(k)),
    ensures
        !ops_ok(l, ops),
    decreases ops.len() - k,
{
    if k < ops.len() {
        assert(ops.take(k + 1).drop_last() =~= ops.take(k));
        lemma_ops_not_ok(l, ops, k + 1);
    } else {
        assert(ops.take(k) =~= ops);
    }
}

/// An update of one member list.
pub struct ListUpdate<T> {
    pub id: String,
    pub ops: Vec<ListOp<T>>,
}

/// The member lists of a guild, by list id.
pub struct MemberList<T> {
    lists: Vec<(String, Vec<T>)>,
}

/// The list with id `id`; empty where there is none.
pub open spec fn list_of<T>(lists: Seq<(Seq<char>, Seq<T>)>, id: Seq<char>) -> Seq<T>
    decreases lists.len(),
{
    if lists.len() == 0 {
        seq![]
    } else if lists[0].0 == id {
        lists[0].1
    } else {
        list_of(lists.drop_first(), id)
    }
}

/// Whether a list with id `id` is kept.
pub open spec fn has_list<T>(lists: Seq<(Seq<char>, Seq<T>)>, id: Seq<char>) -> bool {
    exists|i: int| 0 <= i < lists.len() && lists[i].0 == id
}

impl<T> View for MemberList<T> {
    type V = Seq<(Seq<char>, Seq<T>)>;

    closed spec fn view(&self) -> Seq<(Seq<char>, Seq<T>)> {
        self.lists@.map_values(|e: (String, Vec<T>)| (e.0@, e.1@))
    }
}

/// The elements of `v` in the opposite order.
fn reversed<T>(v: Vec<T>) -> (r: Vec<T>)
    ensures
        r@ == v@.reverse(),
{
    let ghost orig = v@;
    let mut v = v;
    let mut r: Vec<T> = Vec::new();
    while v.len() > 0
        invariant
            v@ == orig.take(v@.len() as int),
            v@.len() <= orig.len(),
            r@ == orig.skip(v@.len() as int).reverse(),
        decreases v.len(),
    {
        let ghost n = v@.len();
        let x = v.pop().unwrap();
        assert(x == orig[n - 1]);
        r.push(x);
        assert(v@ =~= orig.take(n - 1));
        assert(r@ =~= orig.skip(n - 1).reverse());
    }
    assert(orig.skip(0) =~= orig);
    r
}

fn apply_op<T>(l: &mut Vec<T>, op: ListOp<T>)
    requires
        op_ok(old(l)@, op),
    ensures
        final(l)@ == applied_op(old(l)@, op),
{
    match op {
        ListOp::Sync { start, items } => {
            let ghost iv = items@;
            let ghost l0 = l@;
            let mut items = reversed(items);
            let mut k: usize = 0;
            let n = items.len();
            assert(iv.take(0) =~= Seq::<T>::empty());
            while k < n
                invariant
                    n == iv.len(),
                    k <= n,
                    items@ == iv.skip(k as int).reverse(),
                    l@ == synced(l0, start as int, iv.take(k as int)),
                decreases n - k,
            {
                let item = items.pop().unwrap();
                assert(item == iv[k as int]);
                assert(iv.take(k + 1).drop_last() =~= iv.take(k as int));
                assert(items@ =~= iv.skip(k + 1).reverse());
                let ghost prev = l@;
                let pos = start as u128 + k as u128;
                assert(synced(l0, start as int, iv.take(k + 1)) == if (start + k) < prev.len() {
                    prev.update(start + k, iv[k as int])
                } else {
                    prev.push(iv[k as int])
                });
                if pos < l.len() as u128 {
                    l.set(pos as usize, item);
                } else {
                    l.push(item);
                }
                k += 1;
            }
            assert(iv.take(n as int) =~= iv);
        },
        ListOp::Update { index, item } => {
            let n = l.len();
            assert(index < n);
            let i = index as usize;
            assert(i == index);
            l.set(i, item);
        },
        ListOp::Delete { index } => {
            let n = l.len();
            assert(index < n);
            let i = index as usize;
            assert(i == index);
            l.remove(i);
        },
        ListOp::Insert { index, item } => {
            let n = l.len();
            assert(index <= n);
            let i = index as usize;
            assert(i == index);
            l.insert(i, item);
        },
        ListOp::Invalidate { start, end } => {
            let ghost l0 = l@;
            let n = l.len();
            assert(end < n);
            let i = start as usize;
            let last = end as usize;
            assert(i == start && last == end);
            let mut k: usize = i;
            assert(l0.subrange(0, i as int) + l0.subrange(i as int, n as int) =~= l0);
            while k <= last
                invariant
                    i <= k <= last + 1,
                    last < n,
                    n == l0.len(),
                    l@ =~= l0.subrange(0, i as int) + l0.subrange(k as int, n as int),
                decreases last + 1 - k,
            {
                let ghost prev = l@;
                l.remove(i);
                assert(l@ =~= l0.subrange(0, i as int) + l0.subrange(k + 1, n as int));
                k += 1;
            }
        },
        ListOp::Unknown => {},
    }
}

impl<T> MemberList<T> {
    /// No lists.
    pub fn new() -> (m: Self)
        ensures
            m@ == Seq::<(Seq<char>, Seq<T>)>::empty(),
    {
        let m = MemberList { lists: Vec::new() };
        assert(m@ =~= Seq::<(Seq<char>, Seq<T>)>::empty());
        m
    }

    /// The list with id `id`, if one is kept.
    pub fn get(&self, id: &str) -> (r: Option<&Vec<T>>)
        ensures
            match r {
                Some(v) => has_list(self@, id@) && v@ == list_of(self@, id@),
                None => !has_list(self@, id@),
            },
    {
        let mut i: usize = 0;
        let wanted = String::from_str(id);
        assert(self@.skip(0) =~= self@);
        while i < self.lists.len()
            invariant
                i <= self.lists@.len(),
                self@.len() == self.lists@.len(),
                wanted@ == id@,
                list_of(self@.skip(i as int), id@) == list_of(self@, id@),
                forall|k: int| 0 <= k < i ==> self@[k].0 != id@,
            decreases self.lists.len() - i,
        {
            assert(self@[i as int] == (self.lists@[i as int].0@, self.lists@[i as int].1@));
            assert(self@.skip(i as int)[0] == self@[i as int]);
            if self.lists[i].0 == wanted {
                return Some(&self.lists[i].1);
            }
            assert(self@.skip(i as int).drop_first() =~= self@.skip(i + 1));
            i += 1;
        }
        None
    }

    /// Whether every operation of `update` can be applied where it comes,
    /// which [`MemberList::apply_update`] needs.
    pub fn update_is_valid(&self, update: &ListUpdate<T>) -> (b: bool)
        ensures
            b == ops_ok(list_of(self@, update.id@), update.ops@),
    {
        let ghost l0 = list_of(self@, update.id@);
        let ghost ov = update.ops@;
        let ghost m: int = usize::MAX as int;
        let mut len: u128 = match self.get(update.id.as_str()) {
            Some(v) => v.len() as u128,
            None => 0,
        };
        proof {
            lemma_list_of_first(self@, update.id@);
        }
        let mut i: usize = 0;
        assert(ov.take(0) =~= Seq::<ListOp<T>>::empty());
        while i < update.ops.len()
            invariant
                i <= ov.len(),
                ov == update.ops@,
                m == usize::MAX as int,
                l0 == list_of(self@, update.id@),
                ops_ok(l0, ov.take(i as int)),
                len == applied_ops(l0, ov.take(i as int)).len(),
                len <= (i + 1) * m,
            decreases update.ops.len() - i,
        {
            let ghost cur = applied_ops(l0, ov.take(i as int));
            assert(ov.take(i + 1).drop_last() =~= ov.take(i as int));
            assert(ov.take(i + 1).last() == ov[i as int]);
            let ok = match &update.ops[i] {
                ListOp::Sync { .. } => true,
                ListOp::Update { index, .. } => (*index as u128) < len,
                ListOp::Delete { index } => (*index as u128) < len,
                ListOp::Insert { index, .. } => (*index as u128) <= len,
                ListOp::Invalidate { start, end } => (*start as u128) <= (*end as u128) + 1
                    && (*end as u128) < len,
                ListOp::Unknown => false,
            };
            assert(ok == op_ok(cur, ov[i as int]));
            if !ok {
                proof {
                    lemma_ops_not_ok(l0, ov, i + 1);
                }
                return false;
            }
            proof {
                lemma_applied_op_len(cur, ov[i as int]);
                assert(i + 1 <= m);
                assert((i + 2) * m <= (m + 1) * m) by (nonlinear_arith)
                    requires
                        i + 1 <= m,
                        m >= 0,
                ;
                assert((m + 1) * m < 0x1_0000_0000_0000_0000_0000_0000_0000_0000) by (nonlinear_arith)
                    requires
                        0 <= m <= 0xffff_ffff_ffff_ffff,
                ;
                assert((i + 2) * m == (i + 1) * m + m) by (nonlinear_arith);
            }
            len = match &update.ops[i] {
                ListOp::Sync { start, items } => {
                    let off = *start as u128;
                    let n = items.len() as u128;
                    if off >= len {
                        len + n
                    } else if off + n <= len {
                        len
                    } else {
                        off + n
                    }
                },
                ListOp::Update { .. } => len,
                ListOp::Delete { .. } => len - 1,
                ListOp::Insert { .. } => len + 1,
                ListOp::Invalidate { start, end } => len - ((*end as u128) + 1 - (*start as u128)),
                ListOp::Unknown => len,
            };
            i += 1;
        }
        assert(ov.take(ov.len() as int) =~= ov);
        true
    }

    /// Applies an update to its list, which is made empty first where it is new.
    pub fn apply_update(&mut self, update: ListUpdate<T>)
        requires
            ops_ok(list_of(old(self)@, update.id@), update.ops@),
        ensures
            list_of(final(self)@, update.id@) == applied_ops(
                list_of(old(self)@, update.id@),
                update.ops@,
            ),
            has_list(final(self)@, update.id@),
            forall|other: Seq<char>|
                other != update.id@ ==> list_of(final(self)@, other) == list_of(old(self)@, other)
                    && (has_list(final(self)@, other) == has_list(old(self)@, other)),
    {
        let ListUpdate { id, ops } = update;
        let ghost idv = id@;
        let mut idx: usize = 0;
        loop
            invariant
                idx <= self.lists@.len(),
                self@ == old(self)@,
                self@.len() == self.lists@.len(),
                idv == id@,
                forall|k: int| 0 <= k < idx ==> self@[k].0 != idv,
            ensures
                idx <= self.lists@.len(),
                self@ == old(self)@,
                self@.len() == self.lists@.len(),
                forall|k: int| 0 <= k < idx ==> self@[k].0 != idv,
                idx < self.lists@.len() ==> self@[idx as int].0 == idv,
            decreases self.lists.len() - idx,
        {
            if idx == self.lists.len() {
                break;
            }
            assert(self@[idx as int] == (self.lists@[idx as int].0@, self.lists@[idx as int].1@));
            if self.lists[idx].0 == id {
                break;
            }
            idx += 1;
        }
        let ghost before = self@;
        if idx == self.lists.len() {
            proof {
                lemma_list_of_absent(before, idv);
            }
            self.lists.push((id, Vec::new()));
            assert(self@ =~= before.push((idv, Seq::<T>::empty())));
            proof {
                lemma_list_of_push_new(before, idv);
            }
        } else {
            assert(self@[idx as int] == (self.lists@[idx as int].0@, self.lists@[idx as int].1@));
            proof {
                lemma_list_of_at(before, idv, idx as int);
            }
        }
        let ghost mid = self@;
        proof {
            lemma_list_of_at(mid, idv, idx as int);
        }
        let (key, mut list) = self.lists.remove(idx);
        let ghost l0 = list@;
        assert(l0 == list_of(old(self)@, idv));
        let n = ops.len();
        let ghost ov = ops@;
        let mut ops = reversed(ops);
        let mut k: usize = 0;
        assert(ov.take(0) =~= Seq::<ListOp<T>>::empty());
        assert(ov.skip(0).reverse() =~= ops@);
        while k < n
            invariant
                n == ov.len(),
                k <= n,
                ops@ == ov.skip(k as int).reverse(),
                ops_ok(l0, ov),
                list@ == applied_ops(l0, ov.take(k as int)),
            decreases n - k,
        {
            assert(ops@.len() > 0);
            let op = ops.pop().unwrap();
            assert(op == ov[k as int]);
            assert(ov.take(k + 1).drop_last() =~= ov.take(k as int));
            assert(ops@ =~= ov.skip(k + 1).reverse());
            proof {
                lemma_ops_ok_prefix(l0, ov, k + 1);
            }
            apply_op(&mut list, op);
            k += 1;
        }
        assert(ov.take(n as int) =~= ov);
        let ghost newl = list@;
        self.lists.insert(idx, (key, list));
        assert(self@ =~= mid.update(idx as int, (idv, newl)));
        proof {
            lemma_list_of_update(mid, idv, idx as int, newl);
        }
    }
}

/// The first entry with a key gives its list.
proof fn lemma_list_of_at<T>(s: Seq<(Seq<char>, Seq<T>)>, id: Seq<char>, i: int)
    requires
        0 <= i < s.len(),
        s[i].0 == id,
        forall|k: int| 0 <= k < i ==> s[k].0 != id,
    ensures
        list_of(s, id) == s[i].1,
        has_list(s, id),
    decreases i,
{
    if i > 0 {
        lemma_list_of_at(s.drop_first(), id, i - 1);
    }
}

/// Without an entry, a key has the empty list.
proof fn lemma_list_of_absent<T>(s: Seq<(Seq<char>, Seq<T>)>, id: Seq<char>)
    requires
        forall|k: int| 0 <= k < s.len() ==> s[k].0 != id,
    ensures
        list_of(s, id) == Seq::<T>::empty(),
        !has_list(s, id),
    decreases s.len(),
{
    if s.len() > 0 {
        lemma_list_of_absent(s.drop_first(), id);
    }
}

/// A list that is looked up finds the first entry with its key.
proof fn lemma_list_of_first<T>(s: Seq<(Seq<char>, Seq<T>)>, id: Seq<char>)
    ensures
        has_list(s, id) ==> exists|i: int|
            0 <= i < s.len() && s[i].0 == id && list_of(s, id) == s[i].1 && forall|k: int|
                0 <= k < i ==> s[k].0 != id,
        !has_list(s, id) ==> list_of(s, id) == Seq::<T>::empty(),
    decreases s.len(),
{
    if s.len() > 0 {
        lemma_list_of_first(s.drop_first(), id);
        if s[0].0 != id && has_list(s, id) {
            let j = choose|j: int| 0 <= j < s.len() && s[j].0 == id;
            assert(s.drop_first()[j - 1] == s[j]);
            let i = choose|i: int|
                0 <= i < s.drop_first().len() && s.drop_first()[i].0 == id && list_of(
                    s.drop_first(),
                    id,
                ) == s.drop_first()[i].1 && forall|k: int|
                    0 <= k < i ==> s.drop_first()[k].0 != id;
            assert(s[i + 1] == s.drop_first()[i]);
            assert forall|k: int| 0 <= k < i + 1 implies s[k].0 != id by {
                if k > 0 {
                    assert(s[k] == s.drop_first()[k - 1]);
                }
            }
        }
        if !has_list(s, id) {
            assert forall|k: int| 0 <= k < s.drop_first().len() implies s.drop_first()[k].0 != id by {
                assert(s[k + 1] == s.drop_first()[k]);
            }
            lemma_list_of_absent(s.drop_first(), id);
        }
    }
}

/// Adding an entry for a new key leaves the other keys alone.
proof fn lemma_list_of_push_new<T>(s: Seq<(Seq<char>, Seq<T>)>, id: Seq<char>)
    requires
        forall|k: int| 0 <= k < s.len() ==> s[k].0 != id,
    ensures
        forall|other: Seq<char>|
            other != id ==> list_of(s.push((id, Seq::<T>::empty())), other) == list_of(s, other)
                && has_list(s.push((id, Seq::<T>::empty())), other) == has_list(s, other),
{
    let t = s.push((id, Seq::<T>::empty()));
    assert forall|other: Seq<char>| other != id implies list_of(t, other) == list_of(s, other)
        && has_list(t, other) == has_list(s, other) by {
        lemma_list_of_first(s, other);
        lemma_list_of_first(t, other);
        if has_list(s, other) {
            let i = choose|i: int|
                0 <= i < s.len() && s[i].0 == other && list_of(s, other) == s[i].1 && forall|k: int|
                    0 <= k < i ==> s[k].0 != other;
            assert(t[i] == s[i]);
            lemma_list_of_at(t, other, i);
        }
        if has_list(t, other) {
            let j = choose|j: int| 0 <= j < t.len() && t[j].0 == other;
            assert(j < s.len());
            assert(s[j] == t[j]);
        }
    }
}

/// Replacing the list of the first entry with a key changes that key only.
proof fn lemma_list_of_update<T>(s: Seq<(Seq<char>, Seq<T>)>, id: Seq<char>, i: int, l: Seq<T>)
    requires
        0 <= i < s.len(),
        s[i].0 == id,
        forall|k: int| 0 <= k < i ==> s[k].0 != id,
    ensures
        list_of(s.update(i, (id, l)), id) == l,
        has_list(s.update(i, (id, l)), id),
        forall|other: Seq<char>|
            other != id ==> list_of(s.update(i, (id, l)), other) == list_of(s, other) && has_list(
                s.update(i, (id, l)),
                other,
            ) == has_list(s, other),
{
    let t = s.update(i, (id, l));
    lemma_list_of_at(t, id, i);
    assert forall|other: Seq<char>| other != id implies list_of(t, other) == list_of(s, other)
        && has_list(t, other) == has_list(s, other) by {
        lemma_list_of_first(s, other);
        lemma_list_of_first(t, other);
        if has_list(s, other) {
            let j = choose|j: int|
                0 <= j < s.len() && s[j].0 == other && list_of(s, other) == s[j].1 && forall|k: int|
                    0 <= k < j ==> s[k].0 != other;
            assert(j != i);
            assert(t[j] == s[j]);
            assert forall|k: int| 0 <= k < j implies t[k].0 != other by {
                if k != i {
                    assert(t[k] == s[k]);
                }
            }
            lemma_list_of_at(t, other, j);
        }
        if has_list(t, other) {
            let j = choose|j: int| 0 <= j < t.len() && t[j].0 == other;
            assert(j != i);
            assert(s[j] == t[j]);
        }
    }
}

/// The operations of a prefix can be applied where all of them can.
proof fn lemma_ops_ok_prefix<T>(l: Seq<T>, ops: Seq<ListOp<T>>, k: int)
    requires
        ops_ok(l, ops),
        0 <= k <= ops.len(),
    ensures
        ops_ok(l, ops.take(k)),
    decreases ops.len(),
{
    if k < ops.len() {
        assert(ops.drop_last().take(k) =~= ops.take(k));
        lemma_ops_ok_prefix(l, ops.drop_last(), k);
    } else {
        assert(ops.take(k) =~= ops);
    }
}

/// Two updates of a list, one after the other, do what one update with
/// both lists of operations does.
pub proof fn law_updates_compose<T>(l: Seq<T>, a: Seq<ListOp<T>>, b: Seq<ListOp<T>>)
    ensures
        applied_ops(l, a + b) == applied_ops(applied_ops(l, a), b),
        ops_ok(l, a + b) == (ops_ok(l, a) && ops_ok(applied_ops(l, a), b)),
    decreases b.len(),
{
    if b.len() == 0 {
        assert(a + b =~= a);
    } else {
        law_updates_compose(l, a, b.drop_last());
        assert((a + b).drop_last() =~= a + b.drop_last());
        assert((a + b).last() == b.last());
    }
}

/// Where `x` first occurs in `u`.
pub open spec fn first_index(u: Seq<u64>, x: u64) -> Option<int>
    decreases u.len(),
{
    if u.len() == 0 {
        None
    } else if u[0] == x {
        Some(0)
    } else {
        match first_index(u.drop_first(), x) {
            Some(i) => Some(i + 1),
            None => None,
        }
    }
}

/// `u` without the first occurrence of `x`.
pub open spec fn remove_first(u: Seq<u64>, x: u64) -> Seq<u64> {
    match first_index(u, x) {
        Some(i) => u.remove(i),
        None => u,
    }
}

/// `u` without the first occurrence of each of `ignore`, taken in order.
pub open spec fn without_each(u: Seq<u64>, ignore: Seq<u64>) -> Seq<u64>
    decreases ignore.len(),
{
    if ignore.len() == 0 {
        u
    } else {
        remove_first(without_each(u, ignore.drop_last()), ignore.last())
    }
}

/// The first occurrence found by a scan is the one [`first_index`] names.
proof fn lemma_first_index(u: Seq<u64>, x: u64, i: int)
    requires
        0 <= i <= u.len(),
        forall|j: int| 0 <= j < i ==> u[j] != x,
        i < u.len() ==> u[i] == x,
    ensures
        first_index(u, x) == (if i < u.len() {
            Some(i)
        } else {
            None::<int>
        }),
    decreases u.len(),
{
    if u.len() > 0 && i > 0 {
        assert forall|j: int| 0 <= j < i - 1 implies u.drop_first()[j] != x by {
            assert(u.drop_first()[j] == u[j + 1]);
        }
        lemma_first_index(u.drop_first(), x, i - 1);
    }
}

/// Forgets the unknown users that are to be ignored: the first occurrence
/// of each, in the order given.
pub fn drop_ignored(unknown: &mut Vec<u64>, ignore: &Vec<u64>)
    ensures
        final(unknown)@ == without_each(old(unknown)@, ignore@),
{
    let mut k: usize = 0;
    assert(ignore@.take(0) =~= Seq::<u64>::empty());
    while k < ignore.len()
        invariant
            k <= ignore.len(),
            unknown@ == without_each(old(unknown)@, ignore@.take(k as int)),
        decreases ignore.len() - k,
    {
        assert(ignore@.take(k + 1).drop_last() =~= ignore@.take(k as int));
        assert(ignore@.take(k + 1).last() == ignore@[k as int]);
        let x = ignore[k];
        let mut i: usize = 0;
        while i < unknown.len() && unknown[i] != x
            invariant
                i <= unknown.len(),
                forall|j: int| 0 <= j < i ==> unknown@[j] != x,
            decreases unknown.len() - i,
        {
            i += 1;
        }
        proof {
            lemma_first_index(unknown@, x, i as int);
        }
        if i < unknown.len() {
            unknown.remove(i);
        }
        k += 1;
    }
    assert(ignore@.take(ignore@.len() as int) =~= ignore@);
}

/// The users to ask Discord about: the first hundred unknown ones.
pub fn member_request_ids(unknown: &Vec<u64>) -> (r: Vec<u64>)
    ensures
        r@ == (if unknown@.len() <= 100 {
            unknown@
        } else {
            unknown@.take(100)
        }),
{
    let mut r: Vec<u64> = Vec::new();
    let mut i: usize = 0;
    while i < unknown.len() && i < 100
        invariant
            i <= unknown.len(),
            i <= 100,
            r@ == unknown@.take(i as int),
        decreases unknown.len() - i,
    {
        r.push(unknown[i]);
        assert(r@ =~= unknown@.take(i + 1));
        i += 1;
    }
    proof {
        if unknown@.len() <= 100 {
            assert(unknown@.take(i as int) =~= unknown@);
        }
    }
    r
}

/// The weechat colour of a member's nick: its palette index, 0 without a
/// coloured role.
pub open spec fn nick_color_text(color: Option<u32>) -> Seq<char> {
    match color {
        Some(c) => color_name(c),
        None => decimal(0),
    }
}

/// The nick list entry of a member: its display name in its colour, and the
/// group of its highest role with that role's colour, if it has one.
pub fn nick_entry(table: &ColorTable, dir: &Directory, member: &MemberInfo) -> (r: (String, Option<(String, String)>))
    ensures
        r.0@ == built(
            table@,
            colorized(
                match member.nick {
                    Some(n) => n@,
                    None => member.user_name@,
                },
                nick_color_text(
                    match best_colored(known_roles(dir.roles@, member.roles@)) {
                        Some(x) => Some(x.color),
                        None => None,
                    },
                ),
            ),
        ),
        match highest_role(known_roles(dir.roles@, member.roles@)) {
            Some(h) => r.1 is Some && r.1->Some_0.0@ == h.name && r.1->Some_0.1@ == color_name(h.color),
            None => r.1 is None,
        },
{
    let color = match member_color(dir, member) {
        Some(c) => crate::directory::color_code(c),
        None => u64_to_string(0),
    };
    let name = match &member.nick {
        Some(n) => copy_string(n),
        None => copy_string(&member.user_name),
    };
    let styled = colorize_string(name.as_str(), color.as_str());
    proof {
        crate::mentions::lemma_colorized_balanced(name@, color@);
    }
    let display = styled.build_with(table);
    let group = match highest_role_info(dir, member) {
        Some(role) => Some((role.name, crate::directory::color_code(crate::utils::Color::new(role.color)))),
        None => None,
    };
    (display, group)
}

} // verus!
