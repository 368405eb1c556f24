//! What the plugin does with a line typed into a channel buffer, and when it
//! tells Discord that the user is typing.
use crate::parsing::{
    line_edit_of, reaction_is_lone_colon, reaction_of, Emoji, EmojiView, LineEdit,
    LineEditView, Reaction, ReactionView,
};
use crate::text::{copy_string, push_str, replace_all, replace_first, replace_first_str, replace_str};
use crate::utils::{decimal, u64_to_string};
use rand::Rng;
use vstd::prelude::*;
use vstd::string::StrSliceExecFns;

verus! {

/// A recent message of the buffer, as the input line can name it.
pub enum Recent {
    /// A message that Discord has confirmed.
    Sent { id: u64, own: bool, content: String },
    /// A message shown locally until Discord confirms it.
    LocalEcho,
}

/// The mathematical value of a [`Recent`] message.
pub enum RecentView {
    Sent { id: u64, own: bool, content: Seq<char> },
    LocalEcho,
}

impl View for Recent {
    type V = RecentView;

    open spec fn view(&self) -> RecentView {
        match self {
            Recent::Sent { id, own, content } => RecentView::Sent {
                id: *id,
                own: *own,
                content: content@,
            },
            Recent::LocalEcho => RecentView::LocalEcho,
        }
    }
}

/// The reaction to send to Discord.
#[derive(Debug, PartialEq, Eq)]
pub enum ReactionRequest {
    Custom { id: u64, name: String },
    Unicode { name: String },
}

/// The mathematical value of a [`ReactionRequest`].
pub enum ReactionRequestView {
    Custom { id: u64, name: Seq<char> },
    Unicode { name: Seq<char> },
}

impl View for ReactionRequest {
    type V = ReactionRequestView;

    open spec fn view(&self) -> ReactionRequestView {
        match self {
            ReactionRequest::Custom { id, name } => ReactionRequestView::Custom {
                id: *id,
                name: name@,
            },
            ReactionRequest::Unicode { name } => ReactionRequestView::Unicode { name: name@ },
        }
    }
}

/// What to do with a typed line.
#[derive(Debug, PartialEq, Eq)]
pub enum SendAction {
    /// Nothing at all.
    Nothing,
    /// Tell the user something in the core buffer.
    Print(String),
    /// Replace the content of message `id`.
    Edit { id: u64, content: String },
    /// Delete message `id`.
    Delete { id: u64 },
    /// Find the emoji for a shortcode, then call [`finish_reaction`].
    LookupShortcode { name: String, add: bool, line: usize },
    /// Add (or remove) a reaction to message `id`.
    React { id: u64, add: bool, reaction: ReactionRequest },
    /// Send the line as a new message, with `nonce` to match its echo.
    Send { content: String, nonce: u64 },
}

/// The mathematical value of a [`SendAction`].
pub enum SendActionView {
    Nothing,
    Print(Seq<char>),
    Edit { id: u64, content: Seq<char> },
    Delete { id: u64 },
    LookupShortcode { name: Seq<char>, add: bool, line: int },
    React { id: u64, add: bool, reaction: ReactionRequestView },
    Send { content: Seq<char>, nonce: u64 },
}

impl View for SendAction {
    type V = SendActionView;

    open spec fn view(&self) -> SendActionView {
        match self {
            SendAction::Nothing => SendActionView::Nothing,
            SendAction::Print(t) => SendActionView::Print(t@),
            SendAction::Edit { id, content } => SendActionView::Edit { id: *id, content: content@ },
            SendAction::Delete { id } => SendActionView::Delete { id: *id },
            SendAction::LookupShortcode { name, add, line } => SendActionView::LookupShortcode {
                name: name@,
                add: *add,
                line: *line as int,
            },
            SendAction::React { id, add, reaction } => SendActionView::React {
                id: *id,
                add: *add,
                reaction: reaction@,
            },
            SendAction::Send { content, nonce } => SendActionView::Send {
                content: content@,
                nonce: *nonce,
            },
        }
    }
}

/// The views of recent messages, newest first.
pub open spec fn recents(v: Seq<Recent>) -> Seq<RecentView> {
    v.map_values(|m: Recent| m@)
}

/// The message a line count names: 1 is the newest.
pub open spec fn nth_recent(recent: Seq<RecentView>, line: int) -> Option<RecentView> {
    if 1 <= line <= recent.len() {
        Some(recent[line - 1])
    } else {
        None
    }
}

/// The user's own confirmed messages, newest first: their ids and contents.
pub open spec fn own_messages(recent: Seq<RecentView>) -> Seq<(u64, Seq<char>)>
    decreases recent.len(),
{
    if recent.len() == 0 {
        seq![]
    } else {
        let r = own_messages(recent.drop_last());
        match recent.last() {
            RecentView::Sent { id, own, content } => if own {
                r.push((id, content))
            } else {
                r
            },
            RecentView::LocalEcho => r,
        }
    }
}

/// The user's own message that an edit's line count names: 1 is the
/// newest of them.
pub open spec fn nth_own(recent: Seq<RecentView>, line: int) -> Option<(u64, Seq<char>)> {
    let own = own_messages(recent);
    if 1 <= line <= own.len() {
        Some(own[line - 1])
    } else {
        None
    }
}

/// The own messages of a prefix are a prefix of the own messages.
proof fn lemma_own_prefix(s: Seq<RecentView>, j: int)
    requires
        0 <= j <= s.len(),
    ensures
        own_messages(s.take(j)).len() <= own_messages(s).len(),
        forall|k: int|
            0 <= k < own_messages(s.take(j)).len() ==> #[trigger] own_messages(s.take(j))[k]
                == own_messages(s)[k],
    decreases s.len(),
{
    if j < s.len() {
        lemma_own_prefix(s.drop_last(), j);
        assert(s.drop_last().take(j) =~= s.take(j));
    } else {
        assert(s.take(j) =~= s);
    }
}

/// The text printed when no message has a given number.
pub open spec fn not_found_text(line: int) -> Seq<char> {
    "discord: unable to locate message n = "@ + decimal(line as nat)
}

/// The reaction request for a parsed emoji, or the shortcode still to look up.
pub open spec fn request_of(e: EmojiView) -> Result<ReactionRequestView, Seq<char>> {
    match e {
        EmojiView::Custom(name, id) => Ok(ReactionRequestView::Custom { id, name }),
        EmojiView::Unicode(name) => Ok(ReactionRequestView::Unicode { name }),
        EmojiView::Shortcode(name) => Err(name),
    }
}

/// What reacting to message `line` with `request` does.
pub open spec fn react_action(
    recent: Seq<RecentView>,
    line: int,
    add: bool,
    request: ReactionRequestView,
) -> SendActionView {
    match nth_recent(recent, line) {
        Some(RecentView::Sent { id, .. }) => SendActionView::React { id, add, reaction: request },
        _ => SendActionView::Nothing,
    }
}

/// What a typed line does.
///
/// An edit or a deletion names one of the user's own messages, counted from
/// the newest of them. `can_send` tells whether the user may send in the
/// channel, `None` where that could not be determined.
pub open spec fn send_action(
    input: Seq<char>,
    recent: Seq<RecentView>,
    can_send: Option<bool>,
    nonce: u64,
) -> SendActionView {
    match line_edit_of(input) {
        Some(LineEditView::Sub { line, old, new, options }) => match nth_own(recent, line) {
            None => SendActionView::Print(not_found_text(line)),
            Some((id, content)) => {
                let global = match options {
                    Some(o) => o.contains('g'),
                    None => false,
                };
                SendActionView::Edit {
                    id,
                    content: if global {
                        replace_all(content, old, new)
                    } else {
                        replace_first(content, old, new)
                    },
                }
            },
        },
        Some(LineEditView::Delete { line }) => match nth_own(recent, line) {
            None => SendActionView::Print(not_found_text(line)),
            Some((id, _)) => SendActionView::Delete { id },
        },
        None => match reaction_of(input) {
            Some(r) => match request_of(r.emoji) {
                Ok(request) => react_action(recent, r.line, r.add, request),
                Err(name) => SendActionView::LookupShortcode { name, add: r.add, line: r.line },
            },
            None => if can_send == Some(false) {
                SendActionView::Print(
                    "discord: you don't have permission to send messages in this channel"@,
                )
            } else {
                SendActionView::Send { content: input, nonce }
            },
        },
    }
}

fn nth<'a>(recent: &'a Vec<Recent>, line: usize) -> (r: Option<&'a Recent>)
    ensures
        match nth_recent(recents(recent@), line as int) {
            Some(m) => r is Some && r->Some_0@ == m,
            None => r is None,
        },
{
    if line >= 1 && line <= recent.len() {
        Some(&recent[line - 1])
    } else {
        None
    }
}

/// Where the `line`-th of the user's own confirmed messages stands.
fn nth_own_index(recent: &Vec<Recent>, line: usize) -> (r: Option<usize>)
    ensures
        match nth_own(recents(recent@), line as int) {
            Some((id, content)) => r is Some && r->Some_0 < recent.len() && recent@[r->Some_0 as int]@
                == (RecentView::Sent { id, own: true, content }),
            None => r is None,
        },
{
    let ghost s = recents(recent@);
    let mut seen: usize = 0;
    let mut i: usize = 0;
    assert(s.take(0) =~= Seq::<RecentView>::empty());
    while i < recent.len()
        invariant
            i <= recent.len(),
            s == recents(recent@),
            s.len() == recent.len(),
            seen == own_messages(s.take(i as int)).len(),
            seen < line || line == 0,
            seen <= i,
        decreases recent.len() - i,
    {
        assert(s.take(i + 1).drop_last() =~= s.take(i as int));
        assert(s.take(i + 1).last() == recent@[i as int]@);
        match &recent[i] {
            Recent::Sent { own, .. } => {
                if *own {
                    seen += 1;
                    if seen == line {
                        proof {
                            lemma_own_prefix(s, i + 1);
                            assert(own_messages(s.take(i + 1))[line - 1] == own_messages(s)[line - 1]);
                        }
                        return Some(i);
                    }
                }
            },
            Recent::LocalEcho => {},
        }
        i += 1;
    }
    assert(s.take(i as int) =~= s);
    None
}

fn not_found(line: usize) -> (s: String)
    ensures
        s@ == not_found_text(line as int),
{
    let mut s = String::from_str("discord: unable to locate message n = ");
    let n = u64_to_string(line as u64);
    push_str(&mut s, n.as_str());
    s
}

fn has_char(s: &str, c: char) -> (b: bool)
    ensures
        b == s@.contains(c),
{
    let v = crate::text::to_chars(s);
    let mut i: usize = 0;
    while i < v.len()
        invariant
            i <= v.len(),
            v@ == s@,
            forall|k: int| 0 <= k < i ==> v@[k] != c,
        decreases v.len() - i,
    {
        if v[i] == c {
            return true;
        }
        i += 1;
    }
    false
}

/// The reaction request for an emoji of the input line; a shortcode comes
/// back as `Err` with its name, for the caller to look up.
pub fn request_from_reaction(reaction: &Reaction) -> (r: Result<ReactionRequest, String>)
    ensures
        match (r, request_of(reaction.emoji@)) {
            (Ok(q), Ok(v)) => q@ == v,
            (Err(n), Err(v)) => n@ == v,
            _ => false,
        },
{
    match &reaction.emoji {
        Emoji::Shortcode(name) => Err(String::from_str(name)),
        Emoji::Custom(name, id) => Ok(ReactionRequest::Custom { id: *id, name: String::from_str(name) }),
        Emoji::Unicode(name) => Ok(ReactionRequest::Unicode { name: String::from_str(name) }),
    }
}

fn react(recent: &Vec<Recent>, line: usize, add: bool, request: ReactionRequest) -> (a: SendAction)
    ensures
        a@ == react_action(recents(recent@), line as int, add, request@),
{
    match nth(recent, line) {
        Some(Recent::Sent { id, .. }) => SendAction::React { id: *id, add, reaction: request },
        _ => SendAction::Nothing,
    }
}

/// Finishes a reaction once its shortcode has been looked up: `emoji` is
/// the emoji the shortcode names, or `None` where it names none.
pub fn finish_reaction(recent: &Vec<Recent>, line: usize, add: bool, emoji: Option<String>) -> (a: SendAction)
    ensures
        match emoji {
            Some(e) => a@ == react_action(
                recents(recent@),
                line as int,
                add,
                ReactionRequestView::Unicode { name: e@ },
            ),
            None => a@ == SendActionView::Nothing,
        },
{
    match emoji {
        Some(name) => react(recent, line, add, ReactionRequest::Unicode { name }),
        None => SendAction::Nothing,
    }
}

/// What a typed line does, for a given nonce.
pub fn decide_send(
    input: &str,
    recent: &Vec<Recent>,
    can_send: Option<bool>,
    nonce: u64,
) -> (a: SendAction)
    requires
        !reaction_is_lone_colon(input@),
    ensures
        a@ == send_action(input@, recents(recent@), can_send, nonce),
{
    match LineEdit::parse(input) {
        Some(LineEdit::Sub { line, old, new, options }) => match nth_own_index(recent, line) {
            None => SendAction::Print(not_found(line)),
            Some(k) => match &recent[k] {
                Recent::Sent { id, content, .. } => {
                    let global = match options {
                        Some(o) => has_char(o, 'g'),
                        None => false,
                    };
                    let edited = if global {
                        replace_str(content.as_str(), old, new)
                    } else {
                        replace_first_str(content.as_str(), old, new)
                    };
                    SendAction::Edit { id: *id, content: edited }
                },
                Recent::LocalEcho => SendAction::Nothing,
            },
        },
        Some(LineEdit::Delete { line }) => match nth_own_index(recent, line) {
            None => SendAction::Print(not_found(line)),
            Some(k) => match &recent[k] {
                Recent::Sent { id, .. } => SendAction::Delete { id: *id },
                Recent::LocalEcho => SendAction::Nothing,
            },
        },
        None => match Reaction::parse(input) {
            Some(r) => match request_from_reaction(&r) {
                Ok(request) => react(recent, r.line, r.add, request),
                Err(name) => SendAction::LookupShortcode { name, add: r.add, line: r.line },
            },
            None => {
                if can_send == Some(false) {
                    SendAction::Print(
                        String::from_str(
                            "discord: you don't have permission to send messages in this channel",
                        ),
                    )
                } else {
                    SendAction::Send { content: String::from_str(input), nonce }
                }
            },
        },
    }
}

/// `rand::Rng::gen_range` on the thread's generator over `0..=i64::MAX`: the
/// contract claims only that the value lies in that range.
#[verifier::external_body]
fn random_nonce() -> (n: u64)
    ensures
        n <= i64::MAX,
{
    rand::thread_rng().gen_range(0..=(i64::MAX as u64))
}

/// What a typed line does; a message sent gets a fresh random nonce.
pub fn send_message_action(
    input: &str,
    recent: &Vec<Recent>,
    can_send: Option<bool>,
) -> (a: SendAction)
    requires
        !reaction_is_lone_colon(input@),
    ensures
        exists|nonce: u64|
            nonce <= i64::MAX && a@ == #[trigger] send_action(
                input@,
                recents(recent@),
                can_send,
                nonce,
            ),
{
    let nonce = random_nonce();
    decide_send(input, recent, can_send, nonce)
}

/// Whether a change of the input line should tell Discord that the user is
/// typing, given when it was last told: the new time to remember, and
/// whether to tell it now.
pub open spec fn typing_signal_spec(send_typing: bool, input: Seq<char>, bytes: nat, last: u64, now: u64) -> (u64, bool) {
    if !send_typing || bytes < 2 || (input.len() > 0 && input[0] == '/') {
        (last, false)
    } else if last + 9 < now {
        (now, true)
    } else {
        (last, false)
    }
}

/// Decides on a typing notice for the input line `input`, `last` being the
/// time of the last one and `now` the time, in seconds.
pub fn typing_signal(send_typing: bool, input: &str, last: u64, now: u64) -> (r: (u64, bool))
    requires
        last + 9 <= u64::MAX,
    ensures
        r == typing_signal_spec(
            send_typing,
            input@,
            (crate::text::byte_len(input@) as usize) as nat,
            last,
            now,
        ),
{
    if !send_typing {
        return (last, false);
    }
    let n = input.len();
    let slash = input.unicode_len() > 0 && input.get_char(0) == '/';
    if n < 2 || slash {
        return (last, false);
    }
    if last + 9 < now {
        (now, true)
    } else {
        (last, false)
    }
}

} // verus!
