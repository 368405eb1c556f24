//! What the plugin does with each event that comes from Discord, and how
//! reaction events change a message's reactions.
use crate::config::{parse_u64, parse_u64_str};
use crate::message::{ReactionCount, ReactionEmoji};
use crate::text::{copy_string, push_str, to_chars};
use crate::typing::{TypingEntry, TypingEntryView};
use vstd::prelude::*;

verus! {

/// Where a message event happens.
#[derive(Clone, Copy, Debug, PartialEq, Eq)]
pub struct Place {
    pub guild_id: Option<u64>,
    pub channel_id: u64,
}

/// An event from the Discord connection, as the plugin sees it.
pub enum PluginEvent {
    Connected { tag: String },
    MessageCreate { place: Place, author_id: u64 },
    MessageDelete { place: Place, message_id: u64 },
    MessageUpdate { place: Place, message_id: u64 },
    MemberChunk { guild_id: u64, nonce: Option<String>, not_found: Vec<u64> },
    TypingStart {
        place: Place,
        user_id: u64,
        member_name: Option<String>,
        user_name: Option<String>,
        time: u64,
    },
    ChannelUpdate { channel_id: u64 },
    ReactionAdd { place: Place, message_id: u64 },
    ReactionRemove { place: Place, message_id: u64 },
}

/// What to do about an event.
pub enum EventAction {
    /// Print that the session is ready, join the configured guilds and
    /// autojoin the private channels.
    Ready { text: String },
    /// Show a new message in its channel buffer, notifying unless it is the user's own.
    AddMessage { place: Place, notify: bool },
    /// Remove a message from its channel buffer.
    RemoveMessage { place: Place, message_id: u64 },
    /// Apply an edit to a message of its channel buffer.
    UpdateMessage { place: Place, message_id: u64 },
    /// Redraw a guild channel, leaving out the users Discord did not find.
    Redraw { place: Place, not_found: Vec<u64> },
    /// Record that someone is typing and refresh the typing bar item; after
    /// ten seconds, sweep and refresh again.
    Typing { entry: TypingEntry },
    /// Refresh the slow mode bar item.
    RefreshSlowmode,
    /// Add a reaction to a message of its channel buffer.
    AddReaction { place: Place, message_id: u64 },
    /// Remove a reaction from a message of its channel buffer.
    RemoveReaction { place: Place, message_id: u64 },
    /// Nothing.
    Ignore,
}

/// The name to show for someone typing: the member's display name, else the user's name.
pub open spec fn typing_name(member_name: Option<String>, user_name: Option<String>) -> Option<Seq<char>> {
    match member_name {
        Some(n) => Some(n@),
        None => match user_name {
            Some(n) => Some(n@),
            None => None,
        },
    }
}

fn copy_ids(v: &Vec<u64>) -> (r: Vec<u64>)
    ensures
        r@ == v@,
{
    let mut r: Vec<u64> = Vec::new();
    let mut i: usize = 0;
    while i < v.len()
        invariant
            i <= v@.len(),
            r@ == v@.take(i as int),
        decreases v.len() - i,
    {
        r.push(v[i]);
        assert(r@ =~= v@.take(i + 1));
        i += 1;
    }
    assert(v@.take(v@.len() as int) =~= v@);
    r
}

/// Decides what an event leads to, given the current user and the channel
/// of the buffer on screen.
pub fn route(event: &PluginEvent, current_user: Option<u64>, current_channel: Option<u64>) -> (a: EventAction)
    ensures
        match (*event, a) {
            (PluginEvent::Connected { tag }, EventAction::Ready { text }) => text@
                == "discord: ready as: "@ + tag@,
            (PluginEvent::MessageCreate { place, author_id }, EventAction::AddMessage { place: p, notify }) => p
                == place && notify == !(current_user == Some(author_id)),
            (PluginEvent::MessageDelete { place, message_id }, EventAction::RemoveMessage { place: p, message_id: m }) => p
                == place && m == message_id,
            (PluginEvent::MessageUpdate { place, message_id }, EventAction::UpdateMessage { place: p, message_id: m }) => p
                == place && m == message_id,
            (PluginEvent::MemberChunk { guild_id, nonce, not_found }, a) => match nonce {
                Some(n) => match parse_u64(n@) {
                    Some(c) => a matches EventAction::Redraw { place, not_found: nf } && place
                        == (Place { guild_id: Some(guild_id), channel_id: c }) && nf@ == not_found@,
                    None => a is Ignore,
                },
                None => a is Ignore,
            },
            (PluginEvent::TypingStart { place, user_id, member_name, user_name, time }, a) => if current_user
                is None || current_user == Some(user_id) {
                a is Ignore
            } else {
                match typing_name(member_name, user_name) {
                    Some(name) => a matches EventAction::Typing { entry } && entry@ == (TypingEntryView {
                        channel_id: place.channel_id,
                        guild_id: place.guild_id,
                        user: user_id,
                        user_name: name,
                        time,
                    }),
                    None => a is Ignore,
                }
            },
            (PluginEvent::ChannelUpdate { channel_id }, a) => if current_channel == Some(channel_id) {
                a is RefreshSlowmode
            } else {
                a is Ignore
            },
            (PluginEvent::ReactionAdd { place, message_id }, EventAction::AddReaction { place: p, message_id: m }) => p
                == place && m == message_id,
            (PluginEvent::ReactionRemove { place, message_id }, EventAction::RemoveReaction { place: p, message_id: m }) => p
                == place && m == message_id,
            _ => false,
        },
{
    match event {
        PluginEvent::Connected { tag } => {
            let mut text = String::from_str("discord: ready as: ");
            push_str(&mut text, tag.as_str());
            EventAction::Ready { text }
        },
        PluginEvent::MessageCreate { place, author_id } => {
            let own = match current_user {
                Some(u) => u == *author_id,
                None => false,
            };
            EventAction::AddMessage { place: *place, notify: !own }
        },
        PluginEvent::MessageDelete { place, message_id } => EventAction::RemoveMessage {
            place: *place,
            message_id: *message_id,
        },
        PluginEvent::MessageUpdate { place, message_id } => EventAction::UpdateMessage {
            place: *place,
            message_id: *message_id,
        },
        PluginEvent::MemberChunk { guild_id, nonce, not_found } => match nonce {
            Some(n) => {
                let v = to_chars(n.as_str());
                assert(v@.subrange(0, v@.len() as int) =~= v@);
                match parse_u64_str(&v, 0, v.len()) {
                    Some(c) => EventAction::Redraw {
                        place: Place { guild_id: Some(*guild_id), channel_id: c },
                        not_found: copy_ids(not_found),
                    },
                    None => EventAction::Ignore,
                }
            },
            None => EventAction::Ignore,
        },
        PluginEvent::TypingStart { place, user_id, member_name, user_name, time } => {
            let skip = match current_user {
                Some(u) => u == *user_id,
                None => true,
            };
            if skip {
                return EventAction::Ignore;
            }
            let name = match member_name {
                Some(n) => Some(copy_string(n)),
                None => match user_name {
                    Some(n) => Some(copy_string(n)),
                    None => None,
                },
            };
            match name {
                Some(user_name) => EventAction::Typing {
                    entry: TypingEntry {
                        channel_id: place.channel_id,
                        guild_id: place.guild_id,
                        user: *user_id,
                        user_name,
                        time: *time,
                    },
                },
                None => EventAction::Ignore,
            }
        },
        PluginEvent::ChannelUpdate { channel_id } => {
            if current_channel == Some(*channel_id) {
                EventAction::RefreshSlowmode
            } else {
                EventAction::Ignore
            }
        },
        PluginEvent::ReactionAdd { place, message_id } => EventAction::AddReaction {
            place: *place,
            message_id: *message_id,
        },
        PluginEvent::ReactionRemove { place, message_id } => EventAction::RemoveReaction {
            place: *place,
            message_id: *message_id,
        },
    }
}

/// The deletions a bulk deletion stands for: one per message, in order.
pub fn bulk_deletes(place: Place, ids: &Vec<u64>) -> (r: Vec<PluginEvent>)
    ensures
        r@.len() == ids@.len(),
        forall|i: int|
            0 <= i < ids@.len() ==> (#[trigger] r@[i] matches PluginEvent::MessageDelete {
                place: p,
                message_id: m,
            } && p == place && m == ids@[i]),
{
    let mut r: Vec<PluginEvent> = Vec::new();
    let mut i: usize = 0;
    while i < ids.len()
        invariant
            i <= ids.len(),
            r@.len() == i,
            forall|k: int|
                0 <= k < i ==> (#[trigger] r@[k] matches PluginEvent::MessageDelete {
                    place: p,
                    message_id: m,
                } && p == place && m == ids@[k]),
        decreases ids.len() - i,
    {
        r.push(PluginEvent::MessageDelete { place, message_id: ids[i] });
        i += 1;
    }
    r
}

/// What switching to a buffer leads to.
#[derive(Clone, Copy, Debug, PartialEq, Eq)]
pub enum SwitchAction {
    /// Not a channel buffer of the plugin: nothing.
    Ignore,
    /// The history is there: refresh the nick list of a guild channel, then
    /// mark the channel as read.
    Refresh { place: Place },
    /// The first visit: mark the history as loaded, subscribe to the guild's
    /// member list, load the history and mark it read, and load the members.
    FirstVisit { place: Place },
}

/// Decides what switching to a buffer does, given the buffer's ids, whether
/// the plugin has a channel for them and whether its history was loaded.
pub fn on_buffer_switch(
    guild_id: Option<u64>,
    channel_id: Option<u64>,
    known_channel: bool,
    history_loaded: bool,
) -> (a: SwitchAction)
    ensures
        a == (match channel_id {
            None => SwitchAction::Ignore,
            Some(c) => if !known_channel {
                SwitchAction::Ignore
            } else if history_loaded {
                SwitchAction::Refresh { place: Place { guild_id, channel_id: c } }
            } else {
                SwitchAction::FirstVisit { place: Place { guild_id, channel_id: c } }
            },
        }),
{
    match channel_id {
        None => SwitchAction::Ignore,
        Some(c) => {
            if !known_channel {
                SwitchAction::Ignore
            } else if history_loaded {
                SwitchAction::Refresh { place: Place { guild_id, channel_id: c } }
            } else {
                SwitchAction::FirstVisit { place: Place { guild_id, channel_id: c } }
            }
        },
    }
}

/// The mathematical value of a reaction's emoji.
pub enum EmojiKey {
    Custom { id: u64, animated: bool, name: Option<Seq<char>> },
    Unicode { name: Seq<char> },
}

/// The emoji of a reaction, as a value.
pub open spec fn key_of(e: &ReactionEmoji) -> EmojiKey {
    match e {
        ReactionEmoji::Custom { id, animated, name } => EmojiKey::Custom {
            id: *id,
            animated: *animated,
            name: match name {
                Some(n) => Some(n@),
                None => None,
            },
        },
        ReactionEmoji::Unicode { name } => EmojiKey::Unicode { name: name@ },
    }
}

/// The reactions of a message, as (emoji, count, whether the user gave it).
pub open spec fn reactions_view(rs: Seq<ReactionCount>) -> Seq<(EmojiKey, u64, bool)> {
    rs.map_values(|r: ReactionCount| (key_of(&r.emoji), r.count, r.me))
}

/// The emoji and count of each reaction.
pub open spec fn counts(rs: Seq<(EmojiKey, u64, bool)>) -> Seq<(EmojiKey, u64)> {
    rs.map_values(|r: (EmojiKey, u64, bool)| (r.0, r.1))
}

/// The first reaction with emoji `e`.
pub open spec fn find_emoji(rs: Seq<(EmojiKey, u64, bool)>, e: EmojiKey) -> Option<int>
    decreases rs.len(),
{
    if rs.len() == 0 {
        None
    } else if rs[0].0 == e {
        Some(0)
    } else {
        match find_emoji(rs.drop_first(), e) {
            Some(i) => Some(i + 1),
            None => None,
        }
    }
}

/// What [`find_emoji`] finds is the first reaction with the emoji.
pub proof fn lemma_find_emoji(rs: Seq<(EmojiKey, u64, bool)>, e: EmojiKey)
    ensures
        match find_emoji(rs, e) {
            Some(i) => 0 <= i < rs.len() && rs[i].0 == e && forall|j: int| 0 <= j < i ==> rs[j].0 != e,
            None => forall|j: int| 0 <= j < rs.len() ==> rs[j].0 != e,
        },
    decreases rs.len(),
{
    if rs.len() > 0 {
        lemma_find_emoji(rs.drop_first(), e);
        assert forall|j: int| 1 <= j < rs.len() implies rs[j] == rs.drop_first()[j - 1] by {}
    }
}

/// The reactions after someone adds emoji `e`: its count goes up, marking it
/// as the user's where the user gave it; a new emoji starts at one.
pub open spec fn added(rs: Seq<(EmojiKey, u64, bool)>, e: EmojiKey, mine: bool) -> Seq<(EmojiKey, u64, bool)> {
    match find_emoji(rs, e) {
        Some(i) => rs.update(i, (e, (rs[i].1 + 1) as u64, rs[i].2 || mine)),
        None => rs.push((e, 1, mine)),
    }
}

/// The reactions after someone removes emoji `e`: its count goes down, and
/// it goes at zero.
pub open spec fn removed(rs: Seq<(EmojiKey, u64, bool)>, e: EmojiKey) -> Seq<(EmojiKey, u64, bool)> {
    match find_emoji(rs, e) {
        Some(i) => if rs[i].1 == 1 {
            rs.remove(i)
        } else {
            rs.update(i, (e, (rs[i].1 - 1) as u64, rs[i].2))
        },
        None => rs,
    }
}

fn same_emoji(a: &ReactionEmoji, b: &ReactionEmoji) -> (r: bool)
    ensures
        r == (key_of(a) == key_of(b)),
{
    match (a, b) {
        (
            ReactionEmoji::Custom { id: i1, animated: a1, name: n1 },
            ReactionEmoji::Custom { id: i2, animated: a2, name: n2 },
        ) => {
            let names = match (n1, n2) {
                (Some(x), Some(y)) => *x == *y,
                (None, None) => true,
                _ => false,
            };
            *i1 == *i2 && *a1 == *a2 && names
        },
        (ReactionEmoji::Unicode { name: x }, ReactionEmoji::Unicode { name: y }) => *x == *y,
        _ => false,
    }
}

fn copy_emoji(e: &ReactionEmoji) -> (r: ReactionEmoji)
    ensures
        key_of(&r) == key_of(e),
{
    match e {
        ReactionEmoji::Custom { id, animated, name } => ReactionEmoji::Custom {
            id: *id,
            animated: *animated,
            name: match name {
                Some(n) => Some(copy_string(n)),
                None => None,
            },
        },
        ReactionEmoji::Unicode { name } => ReactionEmoji::Unicode { name: copy_string(name) },
    }
}

fn find_reaction(rs: &Vec<ReactionCount>, e: &ReactionEmoji) -> (r: Option<usize>)
    ensures
        match find_emoji(reactions_view(rs@), key_of(e)) {
            Some(i) => 0 <= i < rs.len() && r == Some(i as usize),
            None => r is None,
        },
{
    let ghost v = reactions_view(rs@);
    proof {
        lemma_find_emoji(v, key_of(e));
    }
    let mut i: usize = 0;
    assert(v.skip(0) =~= v);
    while i < rs.len()
        invariant
            i <= rs@.len(),
            v == reactions_view(rs@),
            match find_emoji(v, key_of(e)) {
                Some(p) => p >= i && find_emoji(v.skip(i as int), key_of(e)) == Some(p - i),
                None => find_emoji(v.skip(i as int), key_of(e)) is None,
            },
        decreases rs.len() - i,
    {
        assert(v.skip(i as int)[0] == v[i as int]);
        assert(v[i as int].0 == key_of(&rs@[i as int].emoji));
        if same_emoji(&rs[i].emoji, e) {
            return Some(i);
        }
        assert(v.skip(i as int).drop_first() =~= v.skip(i + 1));
        proof {
            lemma_find_emoji(v.skip(i + 1), key_of(e));
        }
        assert(find_emoji(v.skip(i as int), key_of(e)) == match find_emoji(v.skip(i + 1), key_of(e)) {
            Some(q) => Some(q + 1),
            None => None::<int>,
        });
        i += 1;
    }
    None
}

/// Whether [`add_reaction`] can count one more of `emoji`: its count, if it
/// has one, is below the largest count there is.
pub fn reaction_can_be_added(rs: &Vec<ReactionCount>, emoji: &ReactionEmoji) -> (b: bool)
    ensures
        b == match find_emoji(reactions_view(rs@), key_of(emoji)) {
            Some(i) => reactions_view(rs@)[i].1 < u64::MAX,
            None => true,
        },
{
    match find_reaction(rs, emoji) {
        Some(i) => {
            assert(reactions_view(rs@)[i as int].1 == rs@[i as int].count);
            rs[i].count < u64::MAX
        },
        None => true,
    }
}

/// Whether [`remove_reaction`] can count one less of `emoji`: its count, if
/// it has one, is at least one.
pub fn reaction_can_be_removed(rs: &Vec<ReactionCount>, emoji: &ReactionEmoji) -> (b: bool)
    ensures
        b == match find_emoji(reactions_view(rs@), key_of(emoji)) {
            Some(i) => reactions_view(rs@)[i].1 >= 1,
            None => true,
        },
{
    match find_reaction(rs, emoji) {
        Some(i) => {
            assert(reactions_view(rs@)[i as int].1 == rs@[i as int].count);
            rs[i].count >= 1
        },
        None => true,
    }
}

/// Records that someone added a reaction; `mine` tells whether it was the user.
pub fn add_reaction(rs: &mut Vec<ReactionCount>, emoji: &ReactionEmoji, mine: bool)
    requires
        match find_emoji(reactions_view(old(rs)@), key_of(emoji)) {
            Some(i) => reactions_view(old(rs)@)[i].1 < u64::MAX,
            None => true,
        },
    ensures
        reactions_view(final(rs)@) == added(reactions_view(old(rs)@), key_of(emoji), mine),
{
    let ghost v = reactions_view(rs@);
    let found = find_reaction(rs, emoji);
    proof {
        lemma_find_emoji(v, key_of(emoji));
    }
    let n = rs.len();
    assert(v.len() == n);
    match found {
        Some(i) => {
            assert(find_emoji(v, key_of(emoji)) == Some(i as int));
            assert(v[i as int] == (key_of(&rs@[i as int].emoji), rs@[i as int].count, rs@[i as int].me));
            assert(v[i as int].1 < u64::MAX);
            let old_count = rs[i].count;
            let old_me = rs[i].me;
            let e = copy_emoji(&rs[i].emoji);
            rs.set(i, ReactionCount { emoji: e, count: old_count + 1, me: old_me || mine });
            assert(reactions_view(rs@) =~= v.update(i as int, (key_of(emoji), (v[i as int].1 + 1) as u64, v[i as int].2 || mine)));
        },
        None => {
            rs.push(ReactionCount { emoji: copy_emoji(emoji), count: 1, me: mine });
            assert(reactions_view(rs@) =~= v.push((key_of(emoji), 1, mine)));
        },
    }
}

/// Records that someone removed a reaction.
pub fn remove_reaction(rs: &mut Vec<ReactionCount>, emoji: &ReactionEmoji)
    requires
        match find_emoji(reactions_view(old(rs)@), key_of(emoji)) {
            Some(i) => reactions_view(old(rs)@)[i].1 >= 1,
            None => true,
        },
    ensures
        reactions_view(final(rs)@) == removed(reactions_view(old(rs)@), key_of(emoji)),
{
    let ghost v = reactions_view(rs@);
    let found = find_reaction(rs, emoji);
    proof {
        lemma_find_emoji(v, key_of(emoji));
    }
    let n = rs.len();
    assert(v.len() == n);
    match found {
        Some(i) => {
            assert(find_emoji(v, key_of(emoji)) == Some(i as int));
            assert(v[i as int] == (key_of(&rs@[i as int].emoji), rs@[i as int].count, rs@[i as int].me));
            if rs[i].count == 1 {
                rs.remove(i);
                assert(reactions_view(rs@) =~= v.remove(i as int));
            } else {
                let c = rs[i].count;
                let me = rs[i].me;
                let e = copy_emoji(&rs[i].emoji);
                rs.set(i, ReactionCount { emoji: e, count: c - 1, me });
                assert(reactions_view(rs@) =~= v.update(i as int, (key_of(emoji), (v[i as int].1 - 1) as u64, v[i as int].2)));
            }
        },
        None => {},
    }
}

/// Every reaction has been given at least once.
pub open spec fn all_given(rs: Seq<(EmojiKey, u64, bool)>) -> bool {
    forall|i: int| 0 <= i < rs.len() ==> rs[i].1 >= 1
}

/// Adding and then removing the same reaction gives back the counts there
/// were; every reaction keeps a count of at least one.
pub proof fn law_add_then_remove(rs: Seq<(EmojiKey, u64, bool)>, e: EmojiKey, mine: bool)
    requires
        all_given(rs),
        forall|i: int| 0 <= i < rs.len() ==> rs[i].1 < u64::MAX,
    ensures
        all_given(added(rs, e, mine)),
        all_given(removed(added(rs, e, mine), e)),
        counts(removed(added(rs, e, mine), e)) == counts(rs),
{
    lemma_find_emoji(rs, e);
    let a = added(rs, e, mine);
    match find_emoji(rs, e) {
        Some(i) => {
            assert(a == rs.update(i, (e, (rs[i].1 + 1) as u64, rs[i].2 || mine)));
            lemma_find_emoji(a, e);
            assert(a[i].0 == e);
            assert forall|j: int| 0 <= j < i implies a[j].0 != e by {
                assert(a[j] == rs[j]);
            }
            assert(find_emoji(a, e) == Some(i)) by {
                lemma_find_first(a, e, i);
            }
            let r = removed(a, e);
            assert(r == a.update(i, (e, (a[i].1 - 1) as u64, a[i].2)));
            assert(counts(r) =~= counts(rs)) by {
                assert forall|j: int| 0 <= j < rs.len() implies counts(r)[j] == counts(rs)[j] by {
                    if j == i {
                        assert(rs[i].0 == e);
                    }
                }
            }
        },
        None => {
            assert(a == rs.push((e, 1u64, mine)));
            let n = rs.len() as int;
            assert forall|j: int| 0 <= j < n implies a[j].0 != e by {
                assert(a[j] == rs[j]);
            }
            assert(find_emoji(a, e) == Some(n)) by {
                lemma_find_first(a, e, n);
            }
            assert(removed(a, e) =~= rs);
        },
    }
}

/// The first reaction with an emoji is what [`find_emoji`] finds.
proof fn lemma_find_first(rs: Seq<(EmojiKey, u64, bool)>, e: EmojiKey, i: int)
    requires
        0 <= i < rs.len(),
        rs[i].0 == e,
        forall|j: int| 0 <= j < i ==> rs[j].0 != e,
    ensures
        find_emoji(rs, e) == Some(i),
    decreases i,
{
    if i > 0 {
        assert forall|j: int| 0 <= j < i - 1 implies rs.drop_first()[j].0 != e by {
            assert(rs.drop_first()[j] == rs[j + 1]);
        }
        lemma_find_first(rs.drop_first(), e, i - 1);
    }
}

} // verus!
