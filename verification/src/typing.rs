//! Who is typing where, and the bar item texts that show it.
use crate::text::{copy_string, push_str};
use std::collections::VecDeque;
use vstd::prelude::*;
use vstd::string::StrSliceExecFns;

verus! {

/// The most typing notices kept.
pub const MAX_TYPING_EVENTS: usize = 50;

/// A typing notice from Discord.
pub struct TypingEntry {
    pub channel_id: u64,
    pub guild_id: Option<u64>,
    pub user: u64,
    pub user_name: String,
    pub time: u64,
}

/// The mathematical value of a [`TypingEntry`].
pub struct TypingEntryView {
    pub channel_id: u64,
    pub guild_id: Option<u64>,
    pub user: u64,
    pub user_name: Seq<char>,
    pub time: u64,
}

impl View for TypingEntry {
    type V = TypingEntryView;

    open spec fn view(&self) -> TypingEntryView {
        TypingEntryView {
            channel_id: self.channel_id,
            guild_id: self.guild_id,
            user: self.user,
            user_name: self.user_name@,
            time: self.time,
        }
    }
}

/// Whether a notice of time `t` has not yet expired at `now`: it is less
/// than ten seconds old, or stamped later than `now`.
pub open spec fn fresh(now: u64, t: u64) -> bool {
    now < t + 10
}

/// The notices of `s` still fresh at `now`, in order.
pub open spec fn fresh_only(s: Seq<TypingEntryView>, now: u64) -> Seq<TypingEntryView>
    decreases s.len(),
{
    if s.len() == 0 {
        seq![]
    } else {
        let r = fresh_only(s.drop_last(), now);
        if fresh(now, s.last().time) {
            r.push(s.last())
        } else {
            r
        }
    }
}

/// The names of those typing in a channel, in the order of their notices.
pub open spec fn names_in(s: Seq<TypingEntryView>, guild: Option<u64>, channel: u64) -> Seq<Seq<char>>
    decreases s.len(),
{
    if s.len() == 0 {
        seq![]
    } else {
        let r = names_in(s.drop_last(), guild, channel);
        if s.last().guild_id == guild && s.last().channel_id == channel {
            r.push(s.last().user_name)
        } else {
            r
        }
    }
}

/// The recent typing notices, oldest first.
pub struct TypingTracker {
    entries: VecDeque<TypingEntry>,
}

impl View for TypingTracker {
    type V = Seq<TypingEntryView>;

    closed spec fn view(&self) -> Seq<TypingEntryView> {
        self.entries@.map_values(|e: TypingEntry| e@)
    }
}

/// `std::time::SystemTime::now`, measured from `UNIX_EPOCH` in whole seconds
/// (0 for a clock set before it). Nothing is claimed of the value: it is the
/// clock's.
#[verifier::external_body]
pub(crate) fn unix_now() -> u64 {
    match std::time::SystemTime::now().duration_since(std::time::UNIX_EPOCH) {
        Ok(d) => d.as_secs(),
        Err(_) => 0,
    }
}

impl TypingTracker {
    /// No notices.
    pub fn new() -> (t: TypingTracker)
        ensures
            t@ == Seq::<TypingEntryView>::empty(),
    {
        let t = TypingTracker { entries: VecDeque::new() };
        assert(t@ =~= Seq::<TypingEntryView>::empty());
        t
    }

    /// The number of notices kept.
    pub fn len(&self) -> (n: usize)
        ensures
            n == self@.len(),
    {
        self.entries.len()
    }

    /// Drops the notices that have expired at `now`: those ten seconds old or
    /// more.
    pub fn sweep_at(&mut self, now: u64)
        ensures
            final(self)@ == fresh_only(old(self)@, now),
    {
        let ghost start = self@;
        let n = self.entries.len();
        let mut kept: VecDeque<TypingEntry> = VecDeque::new();
        let mut i: usize = 0;
        assert(start.take(0) =~= Seq::<TypingEntryView>::empty());
        assert(kept@.map_values(|e: TypingEntry| e@) =~= Seq::<TypingEntryView>::empty());
        while i < n
            invariant
                n == start.len(),
                i <= n,
                self.entries@.len() == n - i,
                forall|k: int| 0 <= k < n - i ==> #[trigger] self.entries@[k]@ == start[i + k],
                kept@.map_values(|e: TypingEntry| e@) == fresh_only(start.take(i as int), now),
            decreases n - i,
        {
            let ghost prev = self.entries@;
            let e = self.entries.pop_front().unwrap();
            assert(e@ == start[i as int]);
            assert(start.take(i + 1).drop_last() =~= start.take(i as int));
            let ghost before = kept@.map_values(|e: TypingEntry| e@);
            if e.time >= now || now - e.time < 10 {
                kept.push_back(e);
                assert(kept@.map_values(|e: TypingEntry| e@) =~= before.push(start[i as int]));
            }
            assert forall|k: int| 0 <= k < n - i - 1 implies #[trigger] self.entries@[k]@ == start[i + 1 + k] by {
                assert(self.entries@[k] == prev[k + 1]);
            }
            i += 1;
        }
        assert(start.take(n as int) =~= start);
        self.entries = kept;
    }

    /// Drops the stale notices, by the system clock.
    pub fn sweep(&mut self)
        ensures
            exists|now: u64| final(self)@ == #[trigger] fresh_only(old(self)@, now),
    {
        let now = unix_now();
        self.sweep_at(now);
    }

    /// Adds a notice at `now`, then drops the stale ones and, beyond the
    /// bound, the oldest.
    pub fn add_at(&mut self, entry: TypingEntry, now: u64)
        ensures
            final(self)@ == (if fresh_only(old(self)@.push(entry@), now).len() > MAX_TYPING_EVENTS {
                fresh_only(old(self)@.push(entry@), now).drop_first()
            } else {
                fresh_only(old(self)@.push(entry@), now)
            }),
    {
        let ghost ev = entry@;
        self.entries.push_back(entry);
        assert(self@ =~= old(self)@.push(ev));
        self.sweep_at(now);
        if self.entries.len() > MAX_TYPING_EVENTS {
            self.entries.pop_front();
            assert(self@ =~= fresh_only(old(self)@.push(ev), now).drop_first());
        }
    }

    /// Adds a notice, by the system clock.
    pub fn add(&mut self, entry: TypingEntry)
        ensures
            exists|now: u64|
                final(self)@ == (if #[trigger] fresh_only(old(self)@.push(entry@), now).len()
                    > MAX_TYPING_EVENTS {
                    fresh_only(old(self)@.push(entry@), now).drop_first()
                } else {
                    fresh_only(old(self)@.push(entry@), now)
                }),
    {
        let now = unix_now();
        self.add_at(entry, now);
    }

    /// The names of the users typing in a channel, oldest notice first.
    pub fn typing(&self, guild_id: Option<u64>, channel_id: u64) -> (names: Vec<String>)
        ensures
            names@.map_values(|s: String| s@) == names_in(self@, guild_id, channel_id),
    {
        let mut names: Vec<String> = Vec::new();
        let mut i: usize = 0;
        assert(self@.take(0) =~= Seq::<TypingEntryView>::empty());
        assert(names@.map_values(|s: String| s@) =~= Seq::<Seq<char>>::empty());
        while i < self.entries.len()
            invariant
                i <= self.entries@.len(),
                self@.len() == self.entries@.len(),
                names@.map_values(|s: String| s@) == names_in(self@.take(i as int), guild_id, channel_id),
            decreases self.entries.len() - i,
        {
            assert(self@.take(i + 1).drop_last() =~= self@.take(i as int));
            assert(self@[i as int] == self.entries@[i as int]@);
            let e = &self.entries[i];
            if e.guild_id == guild_id && e.channel_id == channel_id {
                let ghost before = names@.map_values(|s: String| s@);
                names.push(copy_string(&e.user_name));
                assert(names@.map_values(|s: String| s@) =~= before.push(e.user_name@));
            }
            i += 1;
        }
        assert(self@.take(self@.len() as int) =~= self@);
        names
    }
}

/// Sweeping never adds notices.
proof fn lemma_fresh_only_len(s: Seq<TypingEntryView>, now: u64)
    ensures
        fresh_only(s, now).len() <= s.len(),
    decreases s.len(),
{
    if s.len() > 0 {
        lemma_fresh_only_len(s.drop_last(), now);
    }
}

/// The tracker never holds more than [`MAX_TYPING_EVENTS`] notices: adding
/// one to a tracker within the bound leaves it within the bound.
pub proof fn law_typing_stays_bounded(s: Seq<TypingEntryView>, entry: TypingEntryView, now: u64)
    requires
        s.len() <= MAX_TYPING_EVENTS,
    ensures
        (if fresh_only(s.push(entry), now).len() > MAX_TYPING_EVENTS {
            fresh_only(s.push(entry), now).drop_first()
        } else {
            fresh_only(s.push(entry), now)
        }).len() <= MAX_TYPING_EVENTS,
{
    lemma_fresh_only_len(s.push(entry), now);
}

/// Runs of equal names reduced to one (`Vec::dedup`).
pub open spec fn dedup_runs(s: Seq<Seq<char>>) -> Seq<Seq<char>>
    decreases s.len(),
{
    if s.len() <= 1 {
        s
    } else if s.last() == s[s.len() - 2] {
        dedup_runs(s.drop_last())
    } else {
        dedup_runs(s.drop_last()).push(s.last())
    }
}

/// The pieces of `p` with `sep` between them (`join`).
pub open spec fn joined(p: Seq<Seq<char>>, sep: Seq<char>) -> Seq<char>
    decreases p.len(),
{
    if p.len() == 0 {
        seq![]
    } else if p.len() == 1 {
        p[0]
    } else {
        joined(p.drop_last(), sep) + sep + p.last()
    }
}

/// The names to show for a channel, at most `max`, and whether there were more.
pub open spec fn typing_head(names: Seq<Seq<char>>, max: int) -> (Seq<Seq<char>>, bool) {
    let users = dedup_runs(names);
    if users.len() > max {
        (users.take(max), true)
    } else {
        (users, false)
    }
}

/// The short typing bar text: `typing: a, b` and `, ...` when there are more.
pub open spec fn terse_text(head: Seq<Seq<char>>, has_more: bool) -> Seq<char> {
    let users = joined(head, ", "@) + (if has_more {
        ", ..."@
    } else {
        seq![]
    });
    if users.len() == 0 {
        seq![]
    } else {
        "typing: "@ + users
    }
}

/// The long typing bar text: `a is typing`, `a, b and c are typing`, or
/// `Several people are typing...` when there are more.
pub open spec fn expanded_text(head: Seq<Seq<char>>, has_more: bool) -> Seq<char> {
    if head.len() == 0 {
        seq![]
    } else if has_more {
        "Several people are typing..."@
    } else if head.len() == 1 {
        head[0] + " is typing"@
    } else {
        joined(head.drop_last(), ", "@) + " and "@ + head.last() + " are typing"@
    }
}

/// The names for the typing list of a channel and whether some were left out.
pub fn get_users_for_typing_list(
    tracker: &TypingTracker,
    channel_id: u64,
    guild_id: Option<u64>,
    max_names: usize,
) -> (r: (Vec<String>, bool))
    ensures
        r.0@.map_values(|s: String| s@) == typing_head(
            names_in(tracker@, guild_id, channel_id),
            max_names as int,
        ).0,
        r.1 == typing_head(names_in(tracker@, guild_id, channel_id), max_names as int).1,
{
    let names = tracker.typing(guild_id, channel_id);
    let ghost nv = names@.map_values(|s: String| s@);
    let mut users: Vec<String> = Vec::new();
    let mut i: usize = 0;
    assert(users@.map_values(|s: String| s@) =~= dedup_runs(nv.take(0)));
    while i < names.len()
        invariant
            i <= names.len(),
            nv == names@.map_values(|s: String| s@),
            users@.map_values(|s: String| s@) == dedup_runs(nv.take(i as int)),
            i > 0 ==> users@.len() > 0 && users@.last()@ == nv[i - 1],
        decreases names.len() - i,
    {
        let ghost before = users@.map_values(|s: String| s@);
        assert(nv.take(i + 1).drop_last() =~= nv.take(i as int));
        let same = i > 0 && names[i - 1] == names[i];
        if same {
            assert(nv.take(i + 1).last() == nv.take(i + 1)[i - 1]);
        } else {
            if i > 0 {
                assert(nv.take(i + 1)[i - 1] == nv[i - 1]);
            }
            users.push(copy_string(&names[i]));
            assert(users@.map_values(|s: String| s@) =~= before.push(nv[i as int]));
        }
        i += 1;
    }
    assert(nv.take(nv.len() as int) =~= nv);
    proof {
        lemma_dedup_len(nv);
    }
    if users.len() > max_names {
        let mut head: Vec<String> = Vec::new();
        let mut j: usize = 0;
        while j < max_names
            invariant
                j <= max_names < users.len(),
                head@.map_values(|s: String| s@) == users@.map_values(|s: String| s@).take(j as int),
            decreases max_names - j,
        {
            let ghost before = head@.map_values(|s: String| s@);
            head.push(copy_string(&users[j]));
            assert(head@.map_values(|s: String| s@) =~= before.push(users@[j as int]@));
            assert(head@.map_values(|s: String| s@) =~= users@.map_values(|s: String| s@).take(j + 1));
            j += 1;
        }
        (head, true)
    } else {
        (users, false)
    }
}

/// Run-reduction never lengthens.
proof fn lemma_dedup_len(s: Seq<Seq<char>>)
    ensures
        dedup_runs(s).len() <= s.len(),
    decreases s.len(),
{
    if s.len() > 1 {
        lemma_dedup_len(s.drop_last());
    }
}

fn join_names(p: &Vec<String>, n: usize, sep: &str) -> (s: String)
    requires
        n <= p.len(),
    ensures
        s@ == joined(p@.map_values(|x: String| x@).take(n as int), sep@),
{
    let ghost pv = p@.map_values(|x: String| x@);
    let mut s = String::new();
    let mut i: usize = 0;
    assert(pv.take(0) =~= Seq::<Seq<char>>::empty());
    while i < n
        invariant
            i <= n <= p.len(),
            pv == p@.map_values(|x: String| x@),
            s@ == joined(pv.take(i as int), sep@),
        decreases n - i,
    {
        assert(pv.take(i + 1).drop_last() =~= pv.take(i as int));
        if i > 0 {
            push_str(&mut s, sep);
        } else {
            assert(s@ =~= Seq::<char>::empty());
        }
        push_str(&mut s, p[i].as_str());
        if i == 0 {
            assert(s@ =~= pv.take(1)[0]);
        }
        i += 1;
    }
    s
}

/// The short typing bar text for the given names.
pub fn terse_text_of(head: &Vec<String>, has_more: bool) -> (s: String)
    ensures
        s@ == terse_text(head@.map_values(|x: String| x@), has_more),
{
    let mut users = join_names(head, head.len(), ", ");
    assert(head@.map_values(|x: String| x@).take(head.len() as int) =~= head@.map_values(|x: String| x@));
    if has_more {
        push_str(&mut users, ", ...");
    } else {
        assert(users@ + Seq::<char>::empty() =~= users@);
    }
    if users.unicode_len() == 0 {
        String::new()
    } else {
        let mut out = String::from_str("typing: ");
        push_str(&mut out, users.as_str());
        out
    }
}

/// The long typing bar text for the given names.
pub fn expanded_text_of(head: &Vec<String>, has_more: bool) -> (s: String)
    ensures
        s@ == expanded_text(head@.map_values(|x: String| x@), has_more),
{
    let ghost hv = head@.map_values(|x: String| x@);
    if head.len() == 0 {
        String::new()
    } else if has_more {
        String::from_str("Several people are typing...")
    } else if head.len() == 1 {
        let mut out = copy_string(&head[0]);
        push_str(&mut out, " is typing");
        out
    } else {
        let n = head.len();
        let mut out = join_names(head, n - 1, ", ");
        assert(hv.take(n - 1) =~= hv.drop_last());
        push_str(&mut out, " and ");
        push_str(&mut out, head[n - 1].as_str());
        push_str(&mut out, " are typing");
        out
    }
}

/// The short typing bar text for a channel.
pub fn terse_typing_list(
    tracker: &TypingTracker,
    channel_id: u64,
    guild_id: Option<u64>,
    max_names: usize,
) -> (s: String)
    ensures
        s@ == terse_text(
            typing_head(names_in(tracker@, guild_id, channel_id), max_names as int).0,
            typing_head(names_in(tracker@, guild_id, channel_id), max_names as int).1,
        ),
{
    let (head, has_more) = get_users_for_typing_list(tracker, channel_id, guild_id, max_names);
    terse_text_of(&head, has_more)
}

/// The long typing bar text for a channel.
pub fn expanded_typing_list(
    tracker: &TypingTracker,
    channel_id: u64,
    guild_id: Option<u64>,
    max_names: usize,
) -> (s: String)
    ensures
        s@ == expanded_text(
            typing_head(names_in(tracker@, guild_id, channel_id), max_names as int).0,
            typing_head(names_in(tracker@, guild_id, channel_id), max_names as int).1,
        ),
{
    let (head, has_more) = get_users_for_typing_list(tracker, channel_id, guild_id, max_names);
    expanded_text_of(&head, has_more)
}

} // verus!
