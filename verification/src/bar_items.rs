//! The texts of the plugin's bar items: who is typing, the slow mode
//! cooldown and the read-only marker.
use crate::typing::{
    expanded_text, expanded_typing_list, names_in, terse_text, terse_typing_list, typing_head,
    TypingTracker,
};
use crate::utils::{humanize_duration, humanized};
use vstd::prelude::*;

verus! {

/// The slow mode bar item for a channel's per-user rate limit: empty where
/// there is none or it is zero.
pub open spec fn slowmode_of(rate_limit: Option<u64>) -> Seq<char> {
    match rate_limit {
        Some(r) => if r == 0 {
            seq![]
        } else {
            humanized(r as nat)
        },
        None => seq![],
    }
}

/// The slow mode cooldown of a text channel, `None` for other channels.
pub fn slowmode_text(rate_limit: Option<u64>) -> (s: String)
    ensures
        s@ == slowmode_of(rate_limit),
{
    match rate_limit {
        Some(r) => if r == 0 {
            String::new()
        } else {
            humanize_duration(r)
        },
        None => String::new(),
    }
}

/// The read-only marker: a lock where the user is known not to be able to
/// send, nothing otherwise.
pub fn readonly_text(can_send: Option<bool>) -> (s: String)
    ensures
        s@ == (if can_send == Some(false) {
            "🔒"@
        } else {
            Seq::<char>::empty()
        }),
{
    if can_send == Some(false) {
        String::from_str("🔒")
    } else {
        String::new()
    }
}

/// The typing bar item for a channel in the configured style: 0 is the
/// short list, 1 the long one.
pub fn typing_bar_text(
    tracker: &TypingTracker,
    channel_id: u64,
    guild_id: Option<u64>,
    style: i32,
    max_names: i32,
) -> (s: String)
    requires
        0 <= style <= 1,
        0 <= max_names,
    ensures
        s@ == (if style == 0 {
            terse_text(
                typing_head(names_in(tracker@, guild_id, channel_id), max_names as int).0,
                typing_head(names_in(tracker@, guild_id, channel_id), max_names as int).1,
            )
        } else {
            expanded_text(
                typing_head(names_in(tracker@, guild_id, channel_id), max_names as int).0,
                typing_head(names_in(tracker@, guild_id, channel_id), max_names as int).1,
            )
        }),
{
    let max = max_names as usize;
    if style == 0 {
        terse_typing_list(tracker, channel_id, guild_id, max)
    } else {
        expanded_typing_list(tracker, channel_id, guild_id, max)
    }
}

} // verus!
