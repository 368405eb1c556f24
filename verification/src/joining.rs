//! Which channels of a guild the plugin opens by itself when it connects,
//! and which of them start out marked unread.
use vstd::prelude::*;

verus! {

/// How far the user has read a channel.
#[derive(Clone, Copy, Debug, PartialEq, Eq)]
pub struct ReadState {
    pub last_message_id: u64,
    pub mention_count: Option<u64>,
}

/// What the plugin knows of a channel of the guild.
#[derive(Clone, Copy, Debug, PartialEq, Eq)]
pub struct ChannelState {
    pub id: u64,
    /// A text channel whose history the user may read.
    pub text: bool,
    pub last_message_id: Option<u64>,
    pub read_state: Option<ReadState>,
}

/// The first known channel with id `id`.
pub open spec fn channel_state(chs: Seq<ChannelState>, id: u64) -> Option<ChannelState>
    decreases chs.len(),
{
    if chs.len() == 0 {
        None
    } else if chs[0].id == id {
        Some(chs[0])
    } else {
        channel_state(chs.drop_first(), id)
    }
}

/// The text channels, in order.
pub open spec fn text_ids(chs: Seq<ChannelState>) -> Seq<u64>
    decreases chs.len(),
{
    if chs.len() == 0 {
        seq![]
    } else {
        let r = text_ids(chs.drop_last());
        if chs.last().text {
            r.push(chs.last().id)
        } else {
            r
        }
    }
}

/// An autojoined channel is opened where it is a known text channel.
pub open spec fn autojoined(chs: Seq<ChannelState>, id: u64) -> bool {
    match channel_state(chs, id) {
        Some(c) => c.text,
        None => false,
    }
}

/// A watched channel is opened where it is a known text channel with news
/// since it was last read; one without a read state is left alone.
pub open spec fn watched_news(chs: Seq<ChannelState>, id: u64) -> bool {
    match channel_state(chs, id) {
        Some(c) => match c.read_state {
            Some(r) => Some(r.last_message_id) != c.last_message_id && c.text,
            None => false,
        },
        None => false,
    }
}

/// The ids of `ids` that pass `keep`, in order.
pub open spec fn kept(ids: Seq<u64>, keep: spec_fn(u64) -> bool) -> Seq<u64>
    decreases ids.len(),
{
    if ids.len() == 0 {
        seq![]
    } else {
        let r = kept(ids.drop_last(), keep);
        if keep(ids.last()) {
            r.push(ids.last())
        } else {
            r
        }
    }
}

/// The channels to open, in order: every text channel where all are
/// joined; else the autojoined ones, then the watched ones with news.
pub open spec fn joins_of(join_all: bool, chs: Seq<ChannelState>, autojoin: Seq<u64>, watched: Seq<u64>) -> Seq<u64> {
    if join_all {
        text_ids(chs)
    } else {
        kept(autojoin, |id: u64| autojoined(chs, id)) + kept(watched, |id: u64| watched_news(chs, id))
    }
}

fn find_state(chs: &Vec<ChannelState>, id: u64) -> (r: Option<ChannelState>)
    ensures
        r == channel_state(chs@, id),
{
    let mut i: usize = 0;
    assert(chs@.skip(0) =~= chs@);
    while i < chs.len()
        invariant
            i <= chs@.len(),
            channel_state(chs@.skip(i as int), id) == channel_state(chs@, id),
        decreases chs.len() - i,
    {
        assert(chs@.skip(i as int)[0] == chs@[i as int]);
        if chs[i].id == id {
            return Some(chs[i]);
        }
        assert(chs@.skip(i as int).drop_first() =~= chs@.skip(i + 1));
        i += 1;
    }
    assert(chs@.skip(i as int) =~= Seq::<ChannelState>::empty());
    None
}

fn push_text_ids(out: &mut Vec<u64>, chs: &Vec<ChannelState>)
    ensures
        final(out)@ == old(out)@ + text_ids(chs@),
{
    let mut i: usize = 0;
    assert(chs@.take(0) =~= Seq::<ChannelState>::empty());
    assert(out@ =~= old(out)@ + text_ids(chs@.take(0)));
    while i < chs.len()
        invariant
            i <= chs.len(),
            out@ == old(out)@ + text_ids(chs@.take(i as int)),
        decreases chs.len() - i,
    {
        assert(chs@.take(i + 1).drop_last() =~= chs@.take(i as int));
        assert(chs@.take(i + 1).last() == chs@[i as int]);
        if chs[i].text {
            out.push(chs[i].id);
        }
        assert(out@ =~= old(out)@ + text_ids(chs@.take(i + 1)));
        i += 1;
    }
    assert(chs@.take(chs@.len() as int) =~= chs@);
}

fn push_autojoined(out: &mut Vec<u64>, chs: &Vec<ChannelState>, ids: &Vec<u64>)
    ensures
        final(out)@ == old(out)@ + kept(ids@, |id: u64| autojoined(chs@, id)),
{
    let ghost keep = |id: u64| autojoined(chs@, id);
    let mut i: usize = 0;
    assert(ids@.take(0) =~= Seq::<u64>::empty());
    assert(out@ =~= old(out)@ + kept(ids@.take(0), keep));
    while i < ids.len()
        invariant
            i <= ids.len(),
            keep == (|id: u64| autojoined(chs@, id)),
            out@ == old(out)@ + kept(ids@.take(i as int), keep),
        decreases ids.len() - i,
    {
        assert(ids@.take(i + 1).drop_last() =~= ids@.take(i as int));
        assert(ids@.take(i + 1).last() == ids@[i as int]);
        let found = find_state(chs, ids[i]);
        let open = match found {
            Some(c) => c.text,
            None => false,
        };
        assert(open == keep(ids@[i as int]));
        if open {
            out.push(ids[i]);
        }
        assert(out@ =~= old(out)@ + kept(ids@.take(i + 1), keep));
        i += 1;
    }
    assert(ids@.take(ids@.len() as int) =~= ids@);
}

fn push_watched(out: &mut Vec<u64>, chs: &Vec<ChannelState>, ids: &Vec<u64>)
    ensures
        final(out)@ == old(out)@ + kept(ids@, |id: u64| watched_news(chs@, id)),
{
    let ghost keep = |id: u64| watched_news(chs@, id);
    let mut i: usize = 0;
    assert(ids@.take(0) =~= Seq::<u64>::empty());
    assert(out@ =~= old(out)@ + kept(ids@.take(0), keep));
    while i < ids.len()
        invariant
            i <= ids.len(),
            keep == (|id: u64| watched_news(chs@, id)),
            out@ == old(out)@ + kept(ids@.take(i as int), keep),
        decreases ids.len() - i,
    {
        assert(ids@.take(i + 1).drop_last() =~= ids@.take(i as int));
        assert(ids@.take(i + 1).last() == ids@[i as int]);
        let found = find_state(chs, ids[i]);
        let open = match found {
            Some(c) => match c.read_state {
                Some(r) => {
                    let same = match c.last_message_id {
                        Some(m) => m == r.last_message_id,
                        None => false,
                    };
                    !same && c.text
                },
                None => false,
            },
            None => false,
        };
        assert(open == keep(ids@[i as int]));
        if open {
            out.push(ids[i]);
        }
        assert(out@ =~= old(out)@ + kept(ids@.take(i + 1), keep));
        i += 1;
    }
    assert(ids@.take(ids@.len() as int) =~= ids@);
}

/// The channels of a guild to open when it connects, in the order they are
/// opened.
pub fn channels_to_join(
    join_all: bool,
    chs: &Vec<ChannelState>,
    autojoin: &Vec<u64>,
    watched: &Vec<u64>,
) -> (r: Vec<u64>)
    ensures
        r@ == joins_of(join_all, chs@, autojoin@, watched@),
{
    let mut out: Vec<u64> = Vec::new();
    if join_all {
        push_text_ids(&mut out, chs);
        assert(out@ =~= text_ids(chs@));
    } else {
        push_autojoined(&mut out, chs, autojoin);
        push_watched(&mut out, chs, watched);
        assert(out@ =~= joins_of(join_all, chs@, autojoin@, watched@));
    }
    out
}

/// Whether a channel just opened starts out unread, and if so whether it
/// mentions the user: it has a message newer than the last one read.
pub open spec fn unread_of(last_message_id: Option<u64>, read_state: Option<ReadState>) -> Option<bool> {
    match (read_state, last_message_id) {
        (Some(r), Some(m)) => if m > r.last_message_id {
            Some(
                match r.mention_count {
                    Some(n) => n > 0,
                    None => false,
                },
            )
        } else {
            None
        },
        _ => None,
    }
}

/// Decides the unread mark of a channel just opened.
pub fn unread_mark(last_message_id: Option<u64>, read_state: Option<ReadState>) -> (r: Option<bool>)
    ensures
        r == unread_of(last_message_id, read_state),
{
    match (read_state, last_message_id) {
        (Some(r), Some(m)) => if m > r.last_message_id {
            Some(
                match r.mention_count {
                    Some(n) => n > 0,
                    None => false,
                },
            )
        } else {
            None
        },
        _ => None,
    }
}

} // verus!
