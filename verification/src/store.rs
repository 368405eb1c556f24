//! The messages a buffer keeps, newest first, with a bound on how many.
use std::collections::VecDeque;
use crate::text::texts;
use vstd::prelude::*;

verus! {

/// The messages of a buffer, newest first, each with its id.
pub struct MessageStore<M> {
    messages: VecDeque<(u64, M)>,
    max: usize,
}

/// `s` cut to its first `n` elements, where it is longer.
pub open spec fn at_most<T>(s: Seq<T>, n: int) -> Seq<T> {
    if s.len() <= n {
        s
    } else {
        s.take(n)
    }
}

/// The first position of a message with id `id`.
pub open spec fn position_of<M>(s: Seq<(u64, M)>, id: u64) -> Option<int>
    decreases s.len(),
{
    if s.len() == 0 {
        None
    } else if s[0].0 == id {
        Some(0)
    } else {
        match position_of(s.drop_first(), id) {
            Some(i) => Some(i + 1),
            None => None,
        }
    }
}

impl<M> View for MessageStore<M> {
    type V = Seq<(u64, M)>;

    closed spec fn view(&self) -> Seq<(u64, M)> {
        self.messages@
    }
}

impl<M> MessageStore<M> {
    /// The bound on the number of messages.
    pub closed spec fn capacity(&self) -> nat {
        self.max as nat
    }

    /// No more messages than the bound.
    pub closed spec fn wf(&self) -> bool {
        self.messages@.len() <= self.max
    }

    /// An empty store that keeps at most `max` messages.
    pub fn new(max: usize) -> (s: Self)
        ensures
            s@ == Seq::<(u64, M)>::empty(),
            s.capacity() == max,
            s.wf(),
    {
        MessageStore { messages: VecDeque::new(), max }
    }

    /// The number of messages.
    pub fn len(&self) -> (n: usize)
        ensures
            n == self@.len(),
    {
        self.messages.len()
    }

    /// Adds the newest message; the oldest ones beyond the bound go.
    pub fn add_msg(&mut self, id: u64, msg: M)
        ensures
            final(self)@ == at_most(seq![(id, msg)] + old(self)@, old(self).capacity() as int),
            final(self).capacity() == old(self).capacity(),
            final(self).wf(),
    {
        self.messages.push_front((id, msg));
        self.messages.truncate(self.max);
    }

    /// Adds older messages, given oldest first, behind those already kept;
    /// what goes beyond the bound is dropped.
    pub fn add_bulk_msgs(&mut self, msgs: Vec<(u64, M)>)
        ensures
            final(self)@ == at_most(
                old(self)@ + at_most(msgs@.reverse(), old(self).capacity() as int),
                old(self).capacity() as int,
            ),
            final(self).capacity() == old(self).capacity(),
            final(self).wf(),
    {
        let ghost start = self@;
        let ghost rev = msgs@.reverse();
        let ghost orig = msgs@;
        let mut msgs = msgs;
        let mut taken: usize = 0;
        assert(start + rev.take(0) =~= start);
        while taken < self.max && msgs.len() > 0
            invariant
                self.max == old(self).max,
                start == old(self)@,
                rev == orig.reverse(),
                taken <= self.max,
                taken <= orig.len(),
                msgs@ == orig.take(orig.len() - taken),
                self.messages@ == start + rev.take(taken as int),
            decreases self.max - taken,
        {
            let m = msgs.pop().unwrap();
            let ghost k = taken as int;
            assert(m == rev[k]);
            self.messages.push_back(m);
            assert(rev.take(k + 1) =~= rev.take(k).push(rev[k]));
            taken += 1;
            assert(msgs@ =~= orig.take(orig.len() - taken));
        }
        proof {
            if taken < self.max {
                assert(rev.take(taken as int) =~= rev);
            }
            if rev.len() <= self.max {
                assert(rev.take(taken as int) =~= rev);
            }
        }
        self.messages.truncate(self.max);
    }

    /// The `index`-th newest message (0 is the newest).
    pub fn get_nth_message(&self, index: usize) -> (r: Option<&M>)
        ensures
            match r {
                Some(m) => index < self@.len() && *m == self@[index as int].1,
                None => index >= self@.len(),
            },
    {
        if index < self.messages.len() {
            Some(&self.messages[index].1)
        } else {
            None
        }
    }

    /// The `index`-th oldest message (0 is the oldest).
    pub fn nth_oldest_message(&self, index: usize) -> (r: Option<&M>)
        ensures
            match r {
                Some(m) => index < self@.len() && *m == self@.reverse()[index as int].1,
                None => index >= self@.len(),
            },
    {
        let n = self.messages.len();
        if index < n {
            Some(&self.messages[n - 1 - index].1)
        } else {
            None
        }
    }

    /// Where the first message with id `id` is.
    pub fn position(&self, id: u64) -> (r: Option<usize>)
        ensures
            match r {
                Some(i) => position_of(self@, id) == Some(i as int),
                None => position_of(self@, id) is None,
            },
    {
        proof {
            lemma_position_in_bounds(self@, id);
        }
        let mut i: usize = 0;
        while i < self.messages.len()
            invariant
                i <= self.messages@.len(),
                self@ == self.messages@,
                forall|j: int| 0 <= j < i ==> self@[j].0 != id,
                match position_of(self@, id) {
                    Some(p) => 0 <= p < self@.len() && self@[p].0 == id && forall|j: int|
                        0 <= j < p ==> self@[j].0 != id,
                    None => forall|j: int| 0 <= j < self@.len() ==> self@[j].0 != id,
                },
            decreases self.messages.len() - i,
        {
            if self.messages[i].0 == id {
                return Some(i);
            }
            i += 1;
        }
        None
    }

    /// Removes the first message with id `id`, if there is one.
    pub fn remove_msg(&mut self, id: u64)
        ensures
            final(self)@ == (match position_of(old(self)@, id) {
                Some(i) => old(self)@.remove(i),
                None => old(self)@,
            }),
            final(self).capacity() == old(self).capacity(),
            old(self).wf() ==> final(self).wf(),
    {
        let found = self.position(id);
        proof {
            lemma_position_in_bounds(self@, id);
        }
        match found {
            Some(i) => {
                assert(i < self.messages@.len());
                assert(position_of(old(self)@, id) == Some(i as int));
                let removed = self.messages.remove(i);
                assert(removed is Some);
                assert(self.messages@ == old(self)@.remove(i as int));
            },
            None => {},
        }
    }

    /// Removes and returns the `index`-th newest message.
    pub fn remove(&mut self, index: usize) -> (r: Option<M>)
        ensures
            match r {
                Some(m) => index < old(self)@.len() && m == old(self)@[index as int].1
                    && final(self)@ == old(self)@.remove(index as int),
                None => index >= old(self)@.len() && final(self)@ == old(self)@,
            },
            final(self).capacity() == old(self).capacity(),
            old(self).wf() ==> final(self).wf(),
    {
        match self.messages.remove(index) {
            Some(entry) => Some(entry.1),
            None => None,
        }
    }

    /// Replaces the message at `index` (0 is the newest), keeping its id.
    pub fn replace(&mut self, index: usize, msg: M)
        requires
            index < old(self)@.len(),
        ensures
            final(self)@ == old(self)@.update(index as int, (old(self)@[index as int].0, msg)),
            final(self).capacity() == old(self).capacity(),
            old(self).wf() ==> final(self).wf(),
    {
        let id = self.messages[index].0;
        self.messages.remove(index);
        self.messages.insert(index, (id, msg));
        assert(self@ =~= old(self)@.update(index as int, (id, msg)));
    }
}

/// A position found by [`position_of`] is in the sequence and holds the id.
pub proof fn lemma_position_in_bounds<M>(s: Seq<(u64, M)>, id: u64)
    ensures
        match position_of(s, id) {
            Some(i) => 0 <= i < s.len() && s[i].0 == id && forall|j: int|
                0 <= j < i ==> s[j].0 != id,
            None => forall|j: int| 0 <= j < s.len() ==> s[j].0 != id,
        },
    decreases s.len(),
{
    if s.len() > 0 {
        lemma_position_in_bounds(s.drop_first(), id);
        assert forall|j: int| 1 <= j < s.len() implies s[j] == s.drop_first()[j - 1] by {}
    }
}

/// The newest message added is the first one read back, and the bound holds.
pub proof fn law_add_then_read<M>(store: Seq<(u64, M)>, max: int, id: u64, msg: M)
    requires
        max >= 1,
    ensures
        at_most(seq![(id, msg)] + store, max)[0] == (id, msg),
        at_most(seq![(id, msg)] + store, max).len() <= max,
        at_most(seq![(id, msg)] + store, max).len() >= 1,
{
}

/// Whether printing the history must first clear the buffer, and the oldest
/// timestamp shown afterwards: messages older than anything already shown
/// cannot be printed above it.
pub open spec fn history_plan(oldest_shown: Option<i64>, timestamps: Seq<i64>) -> (bool, Option<i64>) {
    let oldest = min_of(timestamps);
    let clear = match (oldest_shown, oldest) {
        (Some(shown), Some(o)) => o < shown,
        _ => false,
    };
    (clear, oldest)
}

/// The smallest timestamp, if there is one.
pub open spec fn min_of(t: Seq<i64>) -> Option<i64>
    decreases t.len(),
{
    if t.len() == 0 {
        None
    } else {
        match min_of(t.drop_last()) {
            Some(m) => if t.last() < m {
                Some(t.last())
            } else {
                Some(m)
            },
            None => Some(t.last()),
        }
    }
}

/// Plans the printing of a history, given the timestamps of its messages.
pub fn plan_history(oldest_shown: Option<i64>, timestamps: &Vec<i64>) -> (r: (bool, Option<i64>))
    ensures
        r == history_plan(oldest_shown, timestamps@),
{
    let mut oldest: Option<i64> = None;
    let mut i: usize = 0;
    assert(timestamps@.take(0) =~= Seq::<i64>::empty());
    while i < timestamps.len()
        invariant
            i <= timestamps.len(),
            oldest == min_of(timestamps@.take(i as int)),
        decreases timestamps.len() - i,
    {
        assert(timestamps@.take(i + 1).drop_last() =~= timestamps@.take(i as int));
        let t = timestamps[i];
        oldest = match oldest {
            Some(m) => if t < m {
                Some(t)
            } else {
                Some(m)
            },
            None => Some(t),
        };
        i += 1;
    }
    assert(timestamps@.take(timestamps@.len() as int) =~= timestamps@);
    let clear = match (oldest_shown, oldest) {
        (Some(shown), Some(o)) => o < shown,
        _ => false,
    };
    (clear, oldest)
}

/// The seconds since the Unix epoch of an RFC 3339 date and time, as
/// `chrono` reads it; `None` where the text is not one.
pub uninterp spec fn rfc3339_seconds(s: Seq<char>) -> Option<i64>;

/// `chrono::DateTime::parse_from_rfc3339`, then `timestamp`: the time a
/// Discord timestamp stands for, or `None` where it cannot be read.
#[verifier::external_body]
pub(crate) fn parse_rfc3339(s: &str) -> (r: Option<i64>)
    ensures
        r == rfc3339_seconds(s@),
{
    chrono::DateTime::parse_from_rfc3339(s).ok().map(|d| d.timestamp())
}

/// The times of the timestamps, where every one of them can be read.
pub open spec fn times_of(v: Seq<Seq<char>>) -> Option<Seq<i64>>
    decreases v.len(),
{
    if v.len() == 0 {
        Some(seq![])
    } else {
        match (times_of(v.drop_last()), rfc3339_seconds(v.last())) {
            (Some(t), Some(x)) => Some(t.push(x)),
            _ => None,
        }
    }
}

/// Plans the printing of a history from the messages' Discord timestamps;
/// `None` where one of them cannot be read.
pub fn plan_history_of(oldest_shown: Option<i64>, stamps: &Vec<String>) -> (r: Option<(bool, Option<i64>)>)
    ensures
        match times_of(texts(stamps@)) {
            Some(t) => r == Some(history_plan(oldest_shown, t)),
            None => r is None,
        },
{
    let ghost sv = texts(stamps@);
    let mut times: Vec<i64> = Vec::new();
    let mut i: usize = 0;
    assert(sv.take(0) =~= Seq::<Seq<char>>::empty());
    while i < stamps.len()
        invariant
            i <= stamps.len(),
            sv == texts(stamps@),
            times_of(sv.take(i as int)) == Some(times@),
        decreases stamps.len() - i,
    {
        assert(sv.take(i + 1).drop_last() =~= sv.take(i as int));
        assert(sv.take(i + 1).last() == stamps@[i as int]@);
        match parse_rfc3339(stamps[i].as_str()) {
            Some(x) => times.push(x),
            None => {
                proof {
                    lemma_times_prefix(sv, i as int + 1);
                }
                return None;
            },
        }
        i += 1;
    }
    assert(sv.take(sv.len() as int) =~= sv);
    Some(plan_history(oldest_shown, &times))
}

/// A timestamp that cannot be read spoils every longer list.
proof fn lemma_times_prefix(v: Seq<Seq<char>>, k: int)
    requires
        0 <= k <= v.len(),
        times_of(v.take(k)) is None,
    ensures
        times_of(v) is None,
    decreases v.len() - k,
{
    if k < v.len() {
        assert(v.take(k + 1).drop_last() =~= v.take(k));
        lemma_times_prefix(v, k + 1);
    } else {
        assert(v.take(k) =~= v);
    }
}

} // verus!
