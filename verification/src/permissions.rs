//! Discord permission bits, and what the plugin decides from the permissions
//! a member has in a guild channel: whether it is a text channel the plugin
//! shows, and whether the user may write there.
use vstd::prelude::*;

verus! {

/// May see the channel.
pub const VIEW_CHANNEL: u64 = 0x400;

/// May send messages in the channel.
pub const SEND_MESSAGES: u64 = 0x800;

/// May read the messages sent before joining.
pub const READ_MESSAGE_HISTORY: u64 = 0x1_0000;

/// The kinds of Discord channels.
#[derive(Clone, Copy, Debug, PartialEq, Eq, Structural)]
pub enum ChannelKind {
    GuildText,
    Private,
    GuildVoice,
    Group,
    GuildCategory,
    GuildNews,
    GuildStore,
    GuildStageVoice,
}

/// `granted` holds every bit of `wanted`.
pub open spec fn grants(granted: u64, wanted: u64) -> bool {
    granted & wanted == wanted
}

/// Whether a member has the `wanted` permissions in a channel, given what
/// working them out gave: `None` where the member is not known, an error
/// where the channel's or the roles' data were missing.
pub open spec fn member_permission_of(granted: Option<Result<u64, ()>>, wanted: u64) -> Option<
    bool,
> {
    match granted {
        None => None,
        Some(Err(_)) => Some(false),
        Some(Ok(g)) => Some(grants(g, wanted)),
    }
}

/// Whether a member has the `wanted` permissions in a channel: unknown for
/// an unknown member, refused where they could not be worked out.
pub fn member_has_permission(granted: Option<Result<u64, ()>>, wanted: u64) -> (r: Option<bool>)
    ensures
        r == member_permission_of(granted, wanted),
{
    match granted {
        None => None,
        Some(Err(_)) => Some(false),
        Some(Ok(g)) => Some(g & wanted == wanted),
    }
}

/// The permissions that make a channel readable.
pub open spec fn reading() -> u64 {
    READ_MESSAGE_HISTORY | VIEW_CHANNEL
}

/// A guild channel that the plugin lists and opens: a plain text channel
/// that the user may both see and read back in.
pub open spec fn is_text_channel_of(kind: ChannelKind, granted: Option<Result<u64, ()>>) -> bool {
    member_permission_of(granted, reading()) == Some(true) && kind == ChannelKind::GuildText
}

/// Whether a guild channel is one the plugin lists and opens, from its kind
/// and the user's permissions in it.
pub fn is_text_channel(kind: ChannelKind, granted: Option<Result<u64, ()>>) -> (r: bool)
    ensures
        r == is_text_channel_of(kind, granted),
{
    match member_has_permission(granted, READ_MESSAGE_HISTORY | VIEW_CHANNEL) {
        Some(true) => match kind {
            ChannelKind::GuildText => true,
            _ => false,
        },
        _ => false,
    }
}

} // verus!
