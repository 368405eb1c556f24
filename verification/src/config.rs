//! The plugin's settings, what each option change does to them, and how they
//! are written back to weechat's configuration.
use crate::parsing::{digits_value, is_digit};
use crate::text::{copy_string, push_char, push_str, to_chars};
use crate::utils::{decimal, digit_char, u64_to_string};
use vstd::prelude::*;

verus! {

/// Settings of the `look` section.
pub struct LookConfig {
    pub nick_prefix: String,
    pub nick_suffix: String,
    pub auto_open_tracing: bool,
    pub typing_list_style: i32,
    pub typing_list_max: i32,
    pub show_unknown_user_ids: bool,
    pub message_fetch_count: i32,
    pub readonly_value: String,
    pub image_max_height: i32,
}

impl Default for LookConfig {
    fn default() -> (c: LookConfig)
        ensures
            c.nick_prefix@ == Seq::<char>::empty(),
            c.nick_suffix@ == Seq::<char>::empty(),
            !c.auto_open_tracing,
            c.typing_list_style == 0,
            c.typing_list_max == 5,
            !c.show_unknown_user_ids,
            c.message_fetch_count == 50,
            c.readonly_value@ == "🔒"@,
            c.image_max_height == 15,
    {
        LookConfig {
            auto_open_tracing: false,
            show_unknown_user_ids: false,
            nick_prefix: String::new(),
            nick_suffix: String::new(),
            typing_list_max: 5,
            typing_list_style: 0,
            message_fetch_count: 50,
            readonly_value: String::from_str("🔒"),
            image_max_height: 15,
        }
    }
}

/// Settings of the `color` section.
pub struct ColorConfig {
    pub nick_prefix_color: String,
    pub nick_suffix_color: String,
}

impl Default for ColorConfig {
    fn default() -> (c: ColorConfig)
        ensures
            c.nick_prefix_color@ == Seq::<char>::empty(),
            c.nick_suffix_color@ == Seq::<char>::empty(),
    {
        ColorConfig { nick_prefix_color: String::new(), nick_suffix_color: String::new() }
    }
}

/// All the plugin's own settings.
pub struct InnerConfig {
    pub look: LookConfig,
    pub color: ColorConfig,
    pub token: Option<String>,
    pub log_directive: String,
    pub autojoin_private: Vec<u64>,
    pub max_buffer_messages: i32,
    pub send_typing: bool,
}

impl Default for InnerConfig {
    fn default() -> (c: InnerConfig)
        ensures
            c.token is None,
            c.log_directive@ == Seq::<char>::empty(),
            c.autojoin_private@ == Seq::<u64>::empty(),
            c.max_buffer_messages == 4096,
            !c.send_typing,
            c.look.typing_list_max == 5,
            c.look.message_fetch_count == 50,
    {
        InnerConfig {
            look: LookConfig::default(),
            color: ColorConfig::default(),
            token: None,
            log_directive: String::new(),
            autojoin_private: Vec::new(),
            max_buffer_messages: 4096,
            send_typing: false,
        }
    }
}

/// The settings of one guild.
pub struct GuildConfigInner {
    pub autoconnect: bool,
    pub autojoin: Vec<u64>,
    pub watched: Vec<u64>,
}

impl GuildConfigInner {
    /// A guild that neither connects nor joins anything by itself.
    pub fn new() -> (g: GuildConfigInner)
        ensures
            !g.autoconnect,
            g.autojoin@ == Seq::<u64>::empty(),
            g.watched@ == Seq::<u64>::empty(),
    {
        GuildConfigInner { autoconnect: false, autojoin: Vec::new(), watched: Vec::new() }
    }
}

/// `s` without a leading `+`.
pub open spec fn unsigned_part(s: Seq<char>) -> Seq<char> {
    if s.len() > 0 && s[0] == '+' {
        s.drop_first()
    } else {
        s
    }
}

/// Every character of `d` is a digit.
pub open spec fn all_digits(d: Seq<char>) -> bool {
    forall|i: int| 0 <= i < d.len() ==> is_digit(d[i])
}

/// `str::parse::<u64>`: an optional `+`, then decimal digits whose value fits.
pub open spec fn parse_u64(s: Seq<char>) -> Option<u64> {
    let d = unsigned_part(s);
    if d.len() == 0 || !all_digits(d) {
        None
    } else if digits_value(d) <= u64::MAX {
        Some(digits_value(d) as u64)
    } else {
        None
    }
}

/// Each number strictly below the next.
pub open spec fn strictly_increasing(v: Seq<u64>) -> bool {
    forall|i: int, j: int| 0 <= i < j < v.len() ==> v[i] < v[j]
}

/// The ids that the pieces of a comma separated list parse to, sorted and
/// without repeats (what `sort` then `dedup` gives).
pub open spec fn channel_list_of(v: Seq<u64>, pieces: Seq<Seq<char>>) -> bool {
    strictly_increasing(v) && forall|x: u64|
        v.contains(x) <==> exists|i: int| 0 <= i < pieces.len() && parse_u64(pieces[i]) == Some(x)
}

/// The pieces of `s` between commas (`str::split(',')`).
pub open spec fn comma_pieces(s: Seq<char>) -> Seq<Seq<char>> {
    crate::styled_string::split_on(s, ',')
}

/// The ids joined by commas.
pub open spec fn joined_ids(v: Seq<u64>) -> Seq<char>
    decreases v.len(),
{
    if v.len() == 0 {
        seq![]
    } else if v.len() == 1 {
        decimal(v[0] as nat)
    } else {
        joined_ids(v.drop_last()) + seq![','] + decimal(v.last() as nat)
    }
}

/// Reads a number the way `str::parse::<u64>` does.
pub fn parse_u64_str(s: &Vec<char>, a: usize, b: usize) -> (r: Option<u64>)
    requires
        a <= b <= s.len(),
    ensures
        r == parse_u64(s@.subrange(a as int, b as int)),
{
    let ghost t = s@.subrange(a as int, b as int);
    let mut start = a;
    if a < b && s[a] == '+' {
        start = a + 1;
    }
    let ghost d = s@.subrange(start as int, b as int);
    assert(d =~= (if t.len() > 0 && t[0] == '+' {
        t.drop_first()
    } else {
        t
    }));
    if start == b {
        return None;
    }
    let mut k = start;
    while k < b
        invariant
            start <= k <= b <= s.len(),
            d == s@.subrange(start as int, b as int),
            t == s@.subrange(a as int, b as int),
            d == unsigned_part(t),
            forall|i: int| start <= i < k ==> is_digit(s@[i]),
        decreases b - k,
    {
        if !('0' <= s[k] && s[k] <= '9') {
            assert(!is_digit(d[k - start]));
            return None;
        }
        k += 1;
    }
    assert forall|i: int| 0 <= i < d.len() implies is_digit(d[i]) by {
        assert(d[i] == s@[start + i]);
    }
    let r = crate::parsing::parse_digits_pub(s, start, b);
    r
}

/// Inserts `x` into a strictly increasing list, unless it is there.
fn insert_sorted(v: &mut Vec<u64>, x: u64)
    requires
        strictly_increasing(old(v)@),
    ensures
        strictly_increasing(final(v)@),
        forall|y: u64| final(v)@.contains(y) <==> (old(v)@.contains(y) || y == x),
{
    let mut i: usize = 0;
    while i < v.len() && v[i] < x
        invariant
            i <= v.len(),
            v@ == old(v)@,
            forall|k: int| 0 <= k < i ==> v@[k] < x,
        decreases v.len() - i,
    {
        i += 1;
    }
    if i < v.len() && v[i] == x {
        assert(v@[i as int] == x);
        return;
    }
    let ghost before = v@;
    assert(before == old(v)@);
    v.insert(i, x);
    assert forall|p: int, q: int| 0 <= p < q < v@.len() implies v@[p] < v@[q] by {
        if q < i {
        } else if q == i {
        } else if p < i {
            assert(v@[q] == before[q - 1]);
        } else if p == i {
            assert(v@[q] == before[q - 1]);
            assert(before[i as int] >= x);
            if q - 1 > i {
                assert(before[i as int] < before[q - 1]);
            }
        } else {
            assert(v@[p] == before[p - 1] && v@[q] == before[q - 1]);
        }
    }
    assert forall|y: u64| #[trigger] v@.contains(y) <==> (before.contains(y) || y == x) by {
        if v@.contains(y) {
            let k = choose|k: int| 0 <= k < v@.len() && v@[k] == y;
            if k < i {
                assert(before[k] == y);
            } else if k > i {
                assert(before[k - 1] == y);
            }
        }
        if before.contains(y) {
            let k = choose|k: int| 0 <= k < before.len() && before[k] == y;
            if k < i {
                assert(v@[k] == y);
            } else {
                assert(v@[k + 1] == y);
            }
        }
        if y == x {
            assert(v@[i as int] == x);
        }
    }
}

/// Adds the id a piece parses to, if any, to a sorted list of ids.
fn add_piece(v: &mut Vec<u64>, chars: &Vec<char>, a: usize, b: usize, done: Ghost<Seq<Seq<char>>>)
    requires
        a <= b <= chars.len(),
        strictly_increasing(old(v)@),
        forall|x: u64|
            old(v)@.contains(x) <==> exists|k: int|
                0 <= k < done@.len() && parse_u64(done@[k]) == Some(x),
    ensures
        strictly_increasing(final(v)@),
        forall|x: u64|
            final(v)@.contains(x) <==> exists|k: int|
                0 <= k < done@.push(chars@.subrange(a as int, b as int)).len() && parse_u64(
                    done@.push(chars@.subrange(a as int, b as int))[k],
                ) == Some(x),
{
    let ghost piece = chars@.subrange(a as int, b as int);
    let ghost nd = done@.push(piece);
    match parse_u64_str(chars, a, b) {
        Some(x) => insert_sorted(v, x),
        None => {},
    }
    assert forall|x: u64|
        v@.contains(x) <==> exists|k: int| 0 <= k < nd.len() && parse_u64(nd[k]) == Some(x) by {
        if exists|k: int| 0 <= k < nd.len() && parse_u64(nd[k]) == Some(x) {
            let k = choose|k: int| 0 <= k < nd.len() && parse_u64(nd[k]) == Some(x);
            if k < done@.len() {
                assert(done@[k] == nd[k]);
            }
        }
        if exists|k: int| 0 <= k < done@.len() && parse_u64(done@[k]) == Some(x) {
            let k = choose|k: int| 0 <= k < done@.len() && parse_u64(done@[k]) == Some(x);
            assert(nd[k] == done@[k]);
        }
        assert(nd[done@.len() as int] == piece);
    }
}

/// The channel ids of a comma separated list: the pieces that parse as
/// numbers, sorted and without repeats; the others are dropped.
pub fn parse_channel_list(value: &str) -> (v: Vec<u64>)
    ensures
        channel_list_of(v@, comma_pieces(value@)),
{
    let chars = to_chars(value);
    let mut v: Vec<u64> = Vec::new();
    let mut start: usize = 0;
    let mut i: usize = 0;
    let ghost mut done: Seq<Seq<char>> = seq![];
    assert(chars@.take(0) =~= Seq::<char>::empty());
    assert(chars@.subrange(0, 0) =~= Seq::<char>::empty());
    while i < chars.len()
        invariant
            start <= i <= chars.len(),
            chars@ == value@,
            strictly_increasing(v@),
            crate::styled_string::split_on(chars@.take(i as int), ',') == done.push(
                chars@.subrange(start as int, i as int),
            ),
            forall|x: u64|
                v@.contains(x) <==> exists|k: int|
                    0 <= k < done.len() && parse_u64(done[k]) == Some(x),
        decreases chars.len() - i,
    {
        assert(chars@.take(i + 1).drop_last() =~= chars@.take(i as int));
        assert(chars@.take(i + 1).last() == chars@[i as int]);
        if chars[i] == ',' {
            add_piece(&mut v, &chars, start, i, Ghost(done));
            proof {
                done = done.push(chars@.subrange(start as int, i as int));
                assert(chars@.subrange(i + 1, i + 1) =~= Seq::<char>::empty());
            }
            start = i + 1;
        } else {
            assert(chars@.subrange(start as int, i + 1) =~= chars@.subrange(start as int, i as int).push(
                chars@[i as int],
            ));
        }
        i = i + 1;
    }
    assert(chars@.take(chars.len() as int) =~= chars@);
    add_piece(&mut v, &chars, start, chars.len(), Ghost(done));
    v
}

/// The ids joined by commas.
pub fn format_channel_list(v: &Vec<u64>) -> (s: String)
    ensures
        s@ == joined_ids(v@),
{
    let mut s = String::new();
    let mut i: usize = 0;
    assert(v@.take(0) =~= Seq::<u64>::empty());
    while i < v.len()
        invariant
            i <= v.len(),
            s@ == joined_ids(v@.take(i as int)),
        decreases v.len() - i,
    {
        assert(v@.take(i + 1).drop_last() =~= v@.take(i as int));
        if i > 0 {
            push_char(&mut s, ',');
        } else {
            assert(s@ =~= Seq::<char>::empty());
        }
        let d = u64_to_string(v[i]);
        push_str(&mut s, d.as_str());
        if i == 0 {
            assert(s@ =~= decimal(v@[0] as nat));
        }
        i += 1;
    }
    assert(v@.take(v.len() as int) =~= v@);
    s
}

/// What setting the private autojoin list to `value` keeps, and the value
/// the option is rewritten to.
pub fn normalize_channel_list(value: &str) -> (r: (Vec<u64>, String))
    ensures
        channel_list_of(r.0@, comma_pieces(value@)),
        r.1@ == joined_ids(r.0@),
{
    let v = parse_channel_list(value);
    let s = format_channel_list(&v);
    (v, s)
}

/// The text of an `i32`.
pub open spec fn int_text(n: int) -> Seq<char> {
    if n < 0 {
        seq!['-'] + decimal((-n) as nat)
    } else {
        decimal(n as nat)
    }
}

/// The decimal text of `n`, with a minus sign when negative.
pub fn i32_to_string(n: i32) -> (s: String)
    ensures
        s@ == int_text(n as int),
{
    if n < 0 {
        let m: i64 = -(n as i64);
        let mut s = String::from_str("-");
        proof {
            reveal_strlit("-");
        }
        assert(s@ =~= seq!['-']);
        let d = u64_to_string(m as u64);
        push_str(&mut s, d.as_str());
        s
    } else {
        u64_to_string(n as u64)
    }
}

/// `true` or `false`.
pub open spec fn bool_text(b: bool) -> Seq<char> {
    if b {
        "true"@
    } else {
        "false"@
    }
}

fn bool_to_string(b: bool) -> (s: String)
    ensures
        s@ == bool_text(b),
{
    if b {
        String::from_str("true")
    } else {
        String::from_str("false")
    }
}

/// A change of one option of the `general` or `look` section.
pub enum OptionChange {
    Token(String),
    LogDirective(String),
    AutojoinPrivate(String),
    MaxBufferMessages(i32),
    SendTyping(bool),
    OpenTracingWindow(bool),
    MessageFetchCount(i32),
    TypingListMax(i32),
    TypingListStyle(i32),
    ShowUnknownUserIds(bool),
    ReadonlyValue(String),
    ImageMaxHeight(i32),
}

impl InnerConfig {
    /// Records a changed option; for the private autojoin list, returns the
    /// value the option is to be rewritten to.
    pub fn apply(&mut self, change: OptionChange) -> (rewrite: Option<String>)
        ensures
            match change {
                OptionChange::Token(t) => final(self).token == Some(t) && rewrite is None,
                OptionChange::LogDirective(t) => final(self).log_directive == t && rewrite is None,
                OptionChange::AutojoinPrivate(t) => channel_list_of(
                    final(self).autojoin_private@,
                    comma_pieces(t@),
                ) && rewrite is Some && rewrite->Some_0@ == joined_ids(
                    final(self).autojoin_private@,
                ),
                OptionChange::MaxBufferMessages(n) => final(self).max_buffer_messages == n
                    && rewrite is None,
                OptionChange::SendTyping(b) => final(self).send_typing == b && rewrite is None,
                OptionChange::OpenTracingWindow(b) => final(self).look.auto_open_tracing == b
                    && rewrite is None,
                OptionChange::MessageFetchCount(n) => final(self).look.message_fetch_count == n
                    && rewrite is None,
                OptionChange::TypingListMax(n) => final(self).look.typing_list_max == n
                    && rewrite is None,
                OptionChange::TypingListStyle(n) => final(self).look.typing_list_style == n
                    && rewrite is None,
                OptionChange::ShowUnknownUserIds(b) => final(self).look.show_unknown_user_ids
                    == b && rewrite is None,
                OptionChange::ReadonlyValue(t) => final(self).look.readonly_value == t
                    && rewrite is None,
                OptionChange::ImageMaxHeight(n) => final(self).look.image_max_height == n
                    && rewrite is None,
            },
    {
        match change {
            OptionChange::Token(t) => {
                self.token = Some(t);
                None
            },
            OptionChange::LogDirective(t) => {
                self.log_directive = t;
                None
            },
            OptionChange::AutojoinPrivate(t) => {
                let (channels, text) = normalize_channel_list(t.as_str());
                self.autojoin_private = channels;
                Some(text)
            },
            OptionChange::MaxBufferMessages(n) => {
                self.max_buffer_messages = n;
                None
            },
            OptionChange::SendTyping(b) => {
                self.send_typing = b;
                None
            },
            OptionChange::OpenTracingWindow(b) => {
                self.look.auto_open_tracing = b;
                None
            },
            OptionChange::MessageFetchCount(n) => {
                self.look.message_fetch_count = n;
                None
            },
            OptionChange::TypingListMax(n) => {
                self.look.typing_list_max = n;
                None
            },
            OptionChange::TypingListStyle(n) => {
                self.look.typing_list_style = n;
                None
            },
            OptionChange::ShowUnknownUserIds(b) => {
                self.look.show_unknown_user_ids = b;
                None
            },
            OptionChange::ReadonlyValue(t) => {
                self.look.readonly_value = t;
                None
            },
            OptionChange::ImageMaxHeight(n) => {
                self.look.image_max_height = n;
                None
            },
        }
    }

    /// The values written back to the configuration file, as
    /// (section, option, value), in the order they are set.
    pub fn persisted_values(&self) -> (r: Vec<(String, String, String)>)
        ensures
            r@.map_values(|e: (String, String, String)| (e.0@, e.1@, e.2@)) == seq![
                ("general"@, "token"@, match self.token {
                    Some(t) => t@,
                    None => Seq::<char>::empty(),
                }),
                ("general"@, "log_directive"@, self.log_directive@),
                ("general"@, "autojoin_private"@, joined_ids(self.autojoin_private@)),
                ("general"@, "max_buffer_messages"@, int_text(self.max_buffer_messages as int)),
                ("general"@, "send_typing"@, bool_text(self.send_typing)),
                ("look"@, "typing_list_max"@, int_text(self.look.typing_list_max as int)),
                ("look"@, "typing_list_style"@, int_text(self.look.typing_list_style as int)),
                ("look"@, "show_unknown_user_ids"@, bool_text(self.look.show_unknown_user_ids)),
                ("look"@, "message_fetch_count"@, int_text(self.look.message_fetch_count as int)),
                ("look"@, "open_tracing_window"@, bool_text(self.look.auto_open_tracing)),
                ("look"@, "image_max_height"@, int_text(self.look.image_max_height as int)),
            ],
    {
        let mut r: Vec<(String, String, String)> = Vec::new();
        let token = match &self.token {
            Some(t) => copy_string(t),
            None => String::new(),
        };
        r.push((String::from_str("general"), String::from_str("token"), token));
        r.push((String::from_str("general"), String::from_str("log_directive"), copy_string(&self.log_directive)));
        r.push((String::from_str("general"), String::from_str("autojoin_private"), format_channel_list(&self.autojoin_private)));
        r.push((String::from_str("general"), String::from_str("max_buffer_messages"), i32_to_string(self.max_buffer_messages)));
        r.push((String::from_str("general"), String::from_str("send_typing"), bool_to_string(self.send_typing)));
        r.push((String::from_str("look"), String::from_str("typing_list_max"), i32_to_string(self.look.typing_list_max)));
        r.push((String::from_str("look"), String::from_str("typing_list_style"), i32_to_string(self.look.typing_list_style)));
        r.push((String::from_str("look"), String::from_str("show_unknown_user_ids"), bool_to_string(self.look.show_unknown_user_ids)));
        r.push((String::from_str("look"), String::from_str("message_fetch_count"), i32_to_string(self.look.message_fetch_count)));
        r.push((String::from_str("look"), String::from_str("open_tracing_window"), bool_to_string(self.look.auto_open_tracing)));
        r.push((String::from_str("look"), String::from_str("image_max_height"), i32_to_string(self.look.image_max_height)));
        assert(r@.map_values(|e: (String, String, String)| (e.0@, e.1@, e.2@)) =~= seq![
            ("general"@, "token"@, match self.token {
                Some(t) => t@,
                None => Seq::<char>::empty(),
            }),
            ("general"@, "log_directive"@, self.log_directive@),
            ("general"@, "autojoin_private"@, joined_ids(self.autojoin_private@)),
            ("general"@, "max_buffer_messages"@, int_text(self.max_buffer_messages as int)),
            ("general"@, "send_typing"@, bool_text(self.send_typing)),
            ("look"@, "typing_list_max"@, int_text(self.look.typing_list_max as int)),
            ("look"@, "typing_list_style"@, int_text(self.look.typing_list_style as int)),
            ("look"@, "show_unknown_user_ids"@, bool_text(self.look.show_unknown_user_ids)),
            ("look"@, "message_fetch_count"@, int_text(self.look.message_fetch_count as int)),
            ("look"@, "open_tracing_window"@, bool_text(self.look.auto_open_tracing)),
            ("look"@, "image_max_height"@, int_text(self.look.image_max_height as int)),
        ]);
        r
    }
}

/// A digit character is a digit and stands for its number.
proof fn lemma_digit_char_value(d: nat)
    requires
        d < 10,
    ensures
        is_digit(digit_char(d)),
        digit_char(d) as nat - '0' as nat == d,
{
}

/// The decimal text of a number is all digits and reads back as that number.
proof fn lemma_decimal_reads_back(n: nat)
    ensures
        decimal(n).len() >= 1,
        all_digits(decimal(n)),
        decimal(n)[0] != '+',
        digits_value(decimal(n)) == n,
    decreases n,
{
    lemma_digit_char_value(n % 10);
    if n < 10 {
        assert(decimal(n).drop_last() =~= Seq::<char>::empty());
        assert(digits_value(decimal(n)) == digits_value(decimal(n).drop_last()) * 10 + (
        decimal(n).last() as nat - '0' as nat));
    } else {
        lemma_decimal_reads_back(n / 10);
        let d = decimal(n / 10);
        let e = d.push(digit_char(n % 10));
        assert(e.drop_last() =~= d);
        assert(e[0] == d[0]);
        assert(digits_value(e) == digits_value(d) * 10 + (e.last() as nat - '0' as nat));
        assert(n == (n / 10) * 10 + n % 10);
        assert forall|i: int| 0 <= i < e.len() implies is_digit(e[i]) by {
            if i < d.len() {
                assert(e[i] == d[i]);
            }
        }
    }
}

/// A piece that holds no comma extends the last piece of a split.
proof fn lemma_split_append_plain(a: Seq<char>, t: Seq<char>)
    requires
        forall|i: int| 0 <= i < t.len() ==> t[i] != ',',
    ensures
        comma_pieces(a + t) == comma_pieces(a).update(
            comma_pieces(a).len() - 1,
            comma_pieces(a).last() + t,
        ),
    decreases t.len(),
{
    crate::styled_string::lemma_split_len(a, ',');
    if t.len() == 0 {
        assert(a + t =~= a);
        assert(comma_pieces(a).last() + t =~= comma_pieces(a).last());
        assert(comma_pieces(a).update(comma_pieces(a).len() - 1, comma_pieces(a).last())
            =~= comma_pieces(a));
    } else {
        let u = t.drop_last();
        lemma_split_append_plain(a, u);
        assert((a + t).drop_last() =~= a + u);
        assert((a + t).last() == t.last());
        crate::styled_string::lemma_split_len(a + u, ',');
        let r = comma_pieces(a + u);
        assert(r.len() == comma_pieces(a).len());
        assert(r.last() == comma_pieces(a).last() + u);
        assert(comma_pieces(a + t) == r.update(r.len() - 1, r.last().push(t.last())));
        assert(comma_pieces(a).last() + u + seq![t.last()] =~= comma_pieces(a).last() + t);
        assert(r.last().push(t.last()) =~= comma_pieces(a).last() + t);
        assert(comma_pieces(a + t) =~= comma_pieces(a).update(
            comma_pieces(a).len() - 1,
            comma_pieces(a).last() + t,
        ));
    }
}

/// The pieces of joined ids are the ids' decimal texts.
proof fn lemma_joined_pieces(v: Seq<u64>)
    requires
        v.len() >= 1,
    ensures
        comma_pieces(joined_ids(v)) == v.map_values(|x: u64| decimal(x as nat)),
    decreases v.len(),
{
    lemma_decimal_reads_back(v.last() as nat);
    let t = decimal(v.last() as nat);
    assert forall|i: int| 0 <= i < t.len() implies t[i] != ',' by {
        assert(is_digit(t[i]));
    }
    if v.len() == 1 {
        lemma_split_append_plain(seq![], t);
        assert(Seq::<char>::empty() + t =~= t);
        assert(comma_pieces(seq![]) =~= seq![seq![]]);
        assert(Seq::<char>::empty() + t =~= t);
        assert(v.map_values(|x: u64| decimal(x as nat)) =~= seq![t]);
    } else {
        let w = v.drop_last();
        lemma_joined_pieces(w);
        let a = joined_ids(w) + seq![','];
        assert(a.drop_last() =~= joined_ids(w));
        assert(comma_pieces(a) == comma_pieces(joined_ids(w)).push(seq![]));
        lemma_split_append_plain(a, t);
        assert(joined_ids(v) == a + t);
        assert(Seq::<char>::empty() + t =~= t);
        assert(comma_pieces(joined_ids(v)) =~= v.map_values(|x: u64| decimal(x as nat)));
    }
}

/// Two strictly increasing lists with the same elements are the same list.
proof fn lemma_sorted_unique(a: Seq<u64>, b: Seq<u64>)
    requires
        strictly_increasing(a),
        strictly_increasing(b),
        forall|x: u64| a.contains(x) <==> b.contains(x),
    ensures
        a == b,
    decreases a.len(),
{
    if a.len() == 0 {
        if b.len() > 0 {
            assert(b.contains(b[0]));
        }
        assert(a =~= b);
    } else {
        assert(a.contains(a[0]));
        let j = choose|j: int| 0 <= j < b.len() && b[j] == a[0];
        assert(b.contains(b[0]));
        let k = choose|k: int| 0 <= k < a.len() && a[k] == b[0];
        assert(a[0] == b[0]) by {
            if j > 0 {
                assert(b[0] < b[j]);
            }
            if k > 0 {
                assert(a[0] < a[k]);
            }
        }
        let a2 = a.drop_first();
        let b2 = b.drop_first();
        assert forall|x: u64| a2.contains(x) <==> b2.contains(x) by {
            if a2.contains(x) {
                let p = choose|p: int| 0 <= p < a2.len() && a2[p] == x;
                assert(a[p + 1] == x && a[0] < a[p + 1]);
                assert(a.contains(x));
                let q = choose|q: int| 0 <= q < b.len() && b[q] == x;
                assert(q != 0);
                assert(b2[q - 1] == x);
            }
            if b2.contains(x) {
                let p = choose|p: int| 0 <= p < b2.len() && b2[p] == x;
                assert(b[p + 1] == x && b[0] < b[p + 1]);
                assert(b.contains(x));
                let q = choose|q: int| 0 <= q < a.len() && a[q] == x;
                assert(q != 0);
                assert(a2[q - 1] == x);
            }
        }
        lemma_sorted_unique(a2, b2);
        assert(a =~= seq![a[0]] + a2);
        assert(b =~= seq![b[0]] + b2);
    }
}

/// The value the private autojoin option is rewritten to reads back as
/// exactly the list it was written from: normalizing it again changes
/// nothing.
pub proof fn law_channel_list_round_trip(v: Seq<u64>)
    requires
        strictly_increasing(v),
    ensures
        channel_list_of(v, comma_pieces(joined_ids(v))),
        forall|w: Seq<u64>| #[trigger] channel_list_of(w, comma_pieces(joined_ids(v))) ==> w == v,
{
    let p = comma_pieces(joined_ids(v));
    assert forall|x: u64| v.contains(x) <==> exists|i: int| 0 <= i < p.len() && parse_u64(p[i]) == Some(x) by {
        if v.len() == 0 {
            assert(p =~= seq![seq![]]);
            assert(parse_u64(p[0]) is None);
        } else {
            lemma_joined_pieces(v);
            if v.contains(x) {
                let i = choose|i: int| 0 <= i < v.len() && v[i] == x;
                lemma_decimal_reads_back(x as nat);
                assert(unsigned_part(p[i]) == p[i]);
                assert(parse_u64(p[i]) == Some(x));
            }
            if exists|i: int| 0 <= i < p.len() && parse_u64(p[i]) == Some(x) {
                let i = choose|i: int| 0 <= i < p.len() && parse_u64(p[i]) == Some(x);
                lemma_decimal_reads_back(v[i] as nat);
                assert(unsigned_part(p[i]) == p[i]);
                assert(v[i] == x);
            }
        }
    }
    assert forall|w: Seq<u64>| #[trigger] channel_list_of(w, p) implies w == v by {
        lemma_sorted_unique(w, v);
    }
}

/// A change of one option of a guild in the `server` section.
pub enum GuildOptionChange {
    Autoconnect(bool),
    Autojoin(String),
    Watched(String),
}

/// The name of a guild's option: its id, a dot, then the setting.
pub open spec fn guild_option_name(id: u64, setting: Seq<char>) -> Seq<char> {
    decimal(id as nat) + "."@ + setting
}

fn guild_option(id: u64, setting: &str) -> (s: String)
    ensures
        s@ == guild_option_name(id, setting@),
{
    let mut s = u64_to_string(id);
    push_str(&mut s, ".");
    push_str(&mut s, setting);
    s
}

impl GuildConfigInner {
    /// Records a changed option of the guild; for a channel list, returns the
    /// value the option is to be rewritten to.
    pub fn apply(&mut self, change: GuildOptionChange) -> (rewrite: Option<String>)
        ensures
            match change {
                GuildOptionChange::Autoconnect(b) => final(self).autoconnect == b
                    && final(self).autojoin@ == old(self).autojoin@
                    && final(self).watched@ == old(self).watched@ && rewrite is None,
                GuildOptionChange::Autojoin(t) => channel_list_of(
                    final(self).autojoin@,
                    comma_pieces(t@),
                ) && final(self).watched@ == old(self).watched@
                    && final(self).autoconnect == old(self).autoconnect && rewrite is Some
                    && rewrite->Some_0@ == joined_ids(final(self).autojoin@),
                GuildOptionChange::Watched(t) => channel_list_of(
                    final(self).watched@,
                    comma_pieces(t@),
                ) && final(self).autojoin@ == old(self).autojoin@
                    && final(self).autoconnect == old(self).autoconnect && rewrite is Some
                    && rewrite->Some_0@ == joined_ids(final(self).watched@),
            },
    {
        match change {
            GuildOptionChange::Autoconnect(b) => {
                self.autoconnect = b;
                None
            },
            GuildOptionChange::Autojoin(t) => {
                let (channels, text) = normalize_channel_list(t.as_str());
                self.autojoin = channels;
                Some(text)
            },
            GuildOptionChange::Watched(t) => {
                let (channels, text) = normalize_channel_list(t.as_str());
                self.watched = channels;
                Some(text)
            },
        }
    }

    /// The values written back to the `server` section for guild `id`, as
    /// (option, value), in the order they are set.
    pub fn persisted_values(&self, id: u64) -> (r: Vec<(String, String)>)
        ensures
            r@.map_values(|e: (String, String)| (e.0@, e.1@)) == seq![
                (guild_option_name(id, "autojoin"@), joined_ids(self.autojoin@)),
                (guild_option_name(id, "watched"@), joined_ids(self.watched@)),
                (guild_option_name(id, "autoconnect"@), bool_text(self.autoconnect)),
            ],
    {
        let mut r: Vec<(String, String)> = Vec::new();
        r.push((guild_option(id, "autojoin"), format_channel_list(&self.autojoin)));
        r.push((guild_option(id, "watched"), format_channel_list(&self.watched)));
        r.push((guild_option(id, "autoconnect"), bool_to_string(self.autoconnect)));
        assert(r@.map_values(|e: (String, String)| (e.0@, e.1@)) =~= seq![
            (guild_option_name(id, "autojoin"@), joined_ids(self.autojoin@)),
            (guild_option_name(id, "watched"@), joined_ids(self.watched@)),
            (guild_option_name(id, "autoconnect"@), bool_text(self.autoconnect)),
        ]);
        r
    }
}

/// The guild an option of the `server` section belongs to: the number
/// before the first `.` of its name, if it is one.
pub open spec fn guild_of_option_spec(name: Seq<char>) -> Option<u64> {
    parse_u64(crate::styled_string::split_on(name, '.')[0])
}

/// Reads the guild id out of a `server` option name such as `1234.autojoin`.
pub fn guild_of_option(name: &str) -> (r: Option<u64>)
    ensures
        r == guild_of_option_spec(name@),
{
    let v = to_chars(name);
    let mut i: usize = 0;
    assert(v@.take(0) =~= Seq::<char>::empty());
    while i < v.len() && v[i] != '.'
        invariant
            i <= v.len(),
            v@ == name@,
            forall|k: int| 0 <= k < i ==> v@[k] != '.',
            crate::styled_string::split_on(v@.take(i as int), '.')[0] == v@.take(i as int),
            crate::styled_string::split_on(v@.take(i as int), '.').len() == 1,
        decreases v.len() - i,
    {
        assert(v@.take(i + 1).drop_last() =~= v@.take(i as int));
        assert(v@.take(i as int).push(v@[i as int]) =~= v@.take(i + 1));
        i += 1;
    }
    proof {
        lemma_split_first(v@, '.', i as int);
    }
    assert(v@.subrange(0, i as int) =~= v@.take(i as int));
    parse_u64_str(&v, 0, i)
}

/// The first piece of a split ends at the first separator.
proof fn lemma_split_first(s: Seq<char>, c: char, i: int)
    requires
        0 <= i <= s.len(),
        forall|k: int| 0 <= k < i ==> s[k] != c,
        i < s.len() ==> s[i] == c,
        crate::styled_string::split_on(s.take(i), c)[0] == s.take(i),
        crate::styled_string::split_on(s.take(i), c).len() == 1,
    ensures
        crate::styled_string::split_on(s, c)[0] == s.take(i),
    decreases s.len() - i,
{
    if i < s.len() {
        let n = s.len() as int;
        lemma_split_prefix_first(s, c, i, n);
        assert(s.take(n) =~= s);
    } else {
        assert(s.take(i) =~= s);
    }
}

/// Extending a text past its first separator leaves the first piece alone.
proof fn lemma_split_prefix_first(s: Seq<char>, c: char, i: int, n: int)
    requires
        0 <= i < n <= s.len(),
        s[i] == c,
        crate::styled_string::split_on(s.take(i), c)[0] == s.take(i),
        crate::styled_string::split_on(s.take(i), c).len() == 1,
    ensures
        crate::styled_string::split_on(s.take(n), c)[0] == s.take(i),
        crate::styled_string::split_on(s.take(n), c).len() >= 2,
    decreases n - i,
{
    crate::styled_string::lemma_split_len(s.take(n - 1), c);
    assert(s.take(n).drop_last() =~= s.take(n - 1));
    if n == i + 1 {
        assert(s.take(n).last() == c);
    } else {
        lemma_split_prefix_first(s, c, i, n - 1);
    }
}

} // verus!
