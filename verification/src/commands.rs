//! The `/discord` command: its grammar, the texts of the message shortcuts,
//! and the name searches its subcommands make.
use crate::text::{texts, copy_string, push_str, trim, trim_matches, trim_start, trimmed, trimmed_of, trimmed_start};
use crate::styled_string::{split_char, split_on};
use crate::typing::joined;
use crate::style::{code_in, ColorTable};
use crate::utils::{clean_name, clean_name_with_case, cleaned, decimal, lowercase, u64_to_string};
use vstd::prelude::*;

verus! {

/// The message shortcuts of `/discord`.
#[derive(Clone, Copy, Debug, PartialEq, Eq)]
pub enum FormatKind {
    Me,
    Tableflip,
    Unflip,
    Shrug,
    Spoiler,
}

/// The debugging subcommands.
#[derive(Clone, Copy, Debug, PartialEq, Eq)]
pub enum DebugCmd {
    Buffer,
    Buffers,
    Shutdown,
    Members,
}

/// A parsed `/discord` command.
#[derive(Debug, PartialEq, Eq)]
pub enum DiscordCmd {
    ServerAdd(String),
    ServerRemove(String),
    ServerAutoconnect(String),
    ServerNoautoconnect(String),
    ServerList,
    ChannelAutojoin { guild: String, name: String },
    ChannelNoautojoin { guild: String, name: String },
    ChannelJoin { guild: String, name: String },
    Query(String),
    Token(String),
    Pins,
    MoreHistory,
    Format { kind: FormatKind, text: String },
    Debug(DebugCmd),
    /// `/discord` alone: nothing to do.
    Nothing,
}

/// Why a command line is not a `/discord` command.
#[derive(Debug, PartialEq, Eq)]
pub enum CommandError {
    /// A word that names no subcommand.
    UnknownSubcommand(String),
    /// A subcommand that needs one of its own.
    MissingSubcommand(String),
    /// A required argument that is not there.
    MissingArgument(String),
}

/// The words from `from` on, joined by spaces.
pub open spec fn words_from(args: Seq<Seq<char>>, from: int) -> Seq<char>
    decreases args.len() - from,
{
    if from >= args.len() {
        seq![]
    } else if from == args.len() - 1 {
        args[from]
    } else {
        args[from] + " "@ + words_from(args, from + 1)
    }
}

/// The text a shortcut sends for a message.
pub open spec fn format_text(kind: FormatKind, msg: Seq<char>) -> Seq<char> {
    match kind {
        FormatKind::Me => "_"@ + msg + "_"@,
        FormatKind::Tableflip => msg + " (╯°□°）╯︵ ┻━┻"@,
        FormatKind::Unflip => msg + " ┬─┬ ノ( ゜-゜ノ)"@,
        FormatKind::Shrug => msg + " ¯\\_(ツ)_/¯"@,
        FormatKind::Spoiler => "||"@ + msg + "||"@,
    }
}

/// The message text a shortcut sends.
pub fn discord_format(kind: FormatKind, msg: &str) -> (r: String)
    ensures
        r@ == format_text(kind, msg@),
{
    match kind {
        FormatKind::Me => {
            let mut r = String::from_str("_");
            push_str(&mut r, msg);
            push_str(&mut r, "_");
            r
        },
        FormatKind::Tableflip => {
            let mut r = String::from_str(msg);
            push_str(&mut r, " (╯°□°）╯︵ ┻━┻");
            r
        },
        FormatKind::Unflip => {
            let mut r = String::from_str(msg);
            push_str(&mut r, " ┬─┬ ノ( ゜-゜ノ)");
            r
        },
        FormatKind::Shrug => {
            let mut r = String::from_str(msg);
            push_str(&mut r, " ¯\\_(ツ)_/¯");
            r
        },
        FormatKind::Spoiler => {
            let mut r = String::from_str("||");
            push_str(&mut r, msg);
            push_str(&mut r, "||");
            r
        },
    }
}

/// The token as it is stored: trimmed, then without quotes at either end.
pub fn clean_token(token: &str) -> (r: String)
    ensures
        r@ == trimmed_of(trimmed(token@), '"'),
{
    let t = trim(token);
    trim_matches(t.as_str(), '"')
}

fn join_words(args: &Vec<String>, from: usize) -> (r: String)
    requires
        from <= args.len(),
    ensures
        r@ == words_from(texts(args@), from as int),
    decreases args.len() - from,
{
    if from >= args.len() {
        String::new()
    } else if from == args.len() - 1 {
        copy_string(&args[from])
    } else {
        let mut r = copy_string(&args[from]);
        push_str(&mut r, " ");
        let rest = join_words(args, from + 1);
        push_str(&mut r, rest.as_str());
        r
    }
}

fn word_is(args: &Vec<String>, i: usize, w: &str) -> (b: bool)
    requires
        i < args.len(),
    ensures
        b == (args@[i as int]@ == w@),
{
    args[i] == String::from_str(w)
}

/// The word at `i`, where there is one.
pub open spec fn word(args: Seq<Seq<char>>, i: int) -> Option<Seq<char>> {
    if 0 <= i < args.len() {
        Some(args[i])
    } else {
        None
    }
}

/// A subcommand that takes a single required argument.
pub open spec fn one_arg(args: Seq<Seq<char>>, at: int, name: Seq<char>) -> Result<Seq<char>, Seq<char>> {
    match word(args, at) {
        Some(w) => Ok(w),
        None => Err(name),
    }
}

/// The meaning of a command line split into words, the first being the
/// command's own name. Arguments past those a subcommand takes are ignored;
/// the shortcuts send all the words after them.
pub open spec fn parse_spec(args: Seq<Seq<char>>) -> Result<DiscordCmdView, CommandErrorView> {
    match word(args, 1) {
        None => Ok(DiscordCmdView::Nothing),
        Some(sub) => if sub == "server"@ {
            match word(args, 2) {
                None => Err(CommandErrorView::MissingSubcommand("server"@)),
                Some(s) => if s == "list"@ {
                    Ok(DiscordCmdView::ServerList)
                } else if s == "add"@ || s == "remove"@ || s == "autoconnect"@ || s
                    == "noautoconnect"@ {
                    match one_arg(args, 3, "name"@) {
                        Ok(n) => Ok(DiscordCmdView::Server(s, n)),
                        Err(e) => Err(CommandErrorView::MissingArgument(e)),
                    }
                } else {
                    Err(CommandErrorView::UnknownSubcommand(s))
                },
            }
        } else if sub == "channel"@ {
            match word(args, 2) {
                None => Err(CommandErrorView::MissingSubcommand("channel"@)),
                Some(s) => if s == "autojoin"@ || s == "noautojoin"@ || s == "join"@ {
                    match (word(args, 3), word(args, 4)) {
                        (Some(g), Some(n)) => Ok(DiscordCmdView::Channel(s, g, n)),
                        (None, _) => Err(CommandErrorView::MissingArgument("guild_name"@)),
                        (_, None) => Err(CommandErrorView::MissingArgument("name"@)),
                    }
                } else {
                    Err(CommandErrorView::UnknownSubcommand(s))
                },
            }
        } else if sub == "query"@ {
            match one_arg(args, 2, "user"@) {
                Ok(u) => Ok(DiscordCmdView::Query(u)),
                Err(e) => Err(CommandErrorView::MissingArgument(e)),
            }
        } else if sub == "token"@ {
            match one_arg(args, 2, "token"@) {
                Ok(t) => Ok(DiscordCmdView::Token(t)),
                Err(e) => Err(CommandErrorView::MissingArgument(e)),
            }
        } else if sub == "pins"@ {
            Ok(DiscordCmdView::Pins)
        } else if sub == "more_history"@ {
            Ok(DiscordCmdView::MoreHistory)
        } else if sub == "debug"@ {
            match word(args, 2) {
                None => Ok(DiscordCmdView::Nothing),
                Some(s) => if s == "buffer"@ || s == "buffers"@ || s == "shutdown"@ || s
                    == "members"@ {
                    Ok(DiscordCmdView::Debug(s))
                } else {
                    Err(CommandErrorView::UnknownSubcommand(s))
                },
            }
        } else {
            match format_kind(sub) {
                Some(k) => Ok(DiscordCmdView::Format(k, trimmed_start(words_from(args, 2)))),
                None => Err(CommandErrorView::UnknownSubcommand(sub)),
            }
        },
    }
}

/// The shortcut a word names.
pub open spec fn format_kind(w: Seq<char>) -> Option<FormatKind> {
    if w == "me"@ {
        Some(FormatKind::Me)
    } else if w == "tableflip"@ {
        Some(FormatKind::Tableflip)
    } else if w == "unflip"@ {
        Some(FormatKind::Unflip)
    } else if w == "shrug"@ {
        Some(FormatKind::Shrug)
    } else if w == "spoiler"@ {
        Some(FormatKind::Spoiler)
    } else {
        None
    }
}

/// A parsed command, as values: subcommands by their words.
pub enum DiscordCmdView {
    Server(Seq<char>, Seq<char>),
    ServerList,
    Channel(Seq<char>, Seq<char>, Seq<char>),
    Query(Seq<char>),
    Token(Seq<char>),
    Pins,
    MoreHistory,
    Format(FormatKind, Seq<char>),
    Debug(Seq<char>),
    Nothing,
}

/// A parse error, as values.
pub enum CommandErrorView {
    UnknownSubcommand(Seq<char>),
    MissingSubcommand(Seq<char>),
    MissingArgument(Seq<char>),
}

/// The value of a parsed command.
pub open spec fn cmd_view(c: DiscordCmd) -> DiscordCmdView {
    match c {
        DiscordCmd::ServerAdd(n) => DiscordCmdView::Server("add"@, n@),
        DiscordCmd::ServerRemove(n) => DiscordCmdView::Server("remove"@, n@),
        DiscordCmd::ServerAutoconnect(n) => DiscordCmdView::Server("autoconnect"@, n@),
        DiscordCmd::ServerNoautoconnect(n) => DiscordCmdView::Server("noautoconnect"@, n@),
        DiscordCmd::ServerList => DiscordCmdView::ServerList,
        DiscordCmd::ChannelAutojoin { guild, name } => DiscordCmdView::Channel("autojoin"@, guild@, name@),
        DiscordCmd::ChannelNoautojoin { guild, name } => DiscordCmdView::Channel("noautojoin"@, guild@, name@),
        DiscordCmd::ChannelJoin { guild, name } => DiscordCmdView::Channel("join"@, guild@, name@),
        DiscordCmd::Query(u) => DiscordCmdView::Query(u@),
        DiscordCmd::Token(t) => DiscordCmdView::Token(t@),
        DiscordCmd::Pins => DiscordCmdView::Pins,
        DiscordCmd::MoreHistory => DiscordCmdView::MoreHistory,
        DiscordCmd::Format { kind, text } => DiscordCmdView::Format(kind, text@),
        DiscordCmd::Debug(d) => DiscordCmdView::Debug(
            match d {
                DebugCmd::Buffer => "buffer"@,
                DebugCmd::Buffers => "buffers"@,
                DebugCmd::Shutdown => "shutdown"@,
                DebugCmd::Members => "members"@,
            },
        ),
        DiscordCmd::Nothing => DiscordCmdView::Nothing,
    }
}

/// The value of a parse error.
pub open spec fn error_view(e: CommandError) -> CommandErrorView {
    match e {
        CommandError::UnknownSubcommand(w) => CommandErrorView::UnknownSubcommand(w@),
        CommandError::MissingSubcommand(w) => CommandErrorView::MissingSubcommand(w@),
        CommandError::MissingArgument(w) => CommandErrorView::MissingArgument(w@),
    }
}

fn arg_at(args: &Vec<String>, i: usize) -> (r: Option<String>)
    ensures
        match word(texts(args@), i as int) {
            Some(w) => r is Some && r->Some_0@ == w,
            None => r is None,
        },
{
    if i < args.len() {
        Some(copy_string(&args[i]))
    } else {
        None
    }
}

/// The server subcommands that act on a named guild.
pub open spec fn is_server_action(w: Seq<char>) -> bool {
    w == "add"@ || w == "remove"@ || w == "autoconnect"@ || w == "noautoconnect"@
}

/// `/discord server W N`, for each of the four actions W, reads as that very
/// action on the guild N; and a parsed server command carries the word of
/// its own action: `ServerRemove` is `remove`, and so on.
pub proof fn law_server_action_is_its_word(args: Seq<Seq<char>>, c: DiscordCmd)
    ensures
        args.len() >= 4 && args[1] == "server"@ && is_server_action(args[2]) ==> parse_spec(args)
            == Ok::<DiscordCmdView, CommandErrorView>(DiscordCmdView::Server(args[2], args[3])),
        cmd_view(c) matches DiscordCmdView::Server(w, n) ==> {
            &&& (c is ServerAdd <==> w == "add"@)
            &&& (c is ServerRemove <==> w == "remove"@)
            &&& (c is ServerAutoconnect <==> w == "autoconnect"@)
            &&& (c is ServerNoautoconnect <==> w == "noautoconnect"@)
        },
{
    reveal_strlit("add");
    reveal_strlit("remove");
    reveal_strlit("autoconnect");
    reveal_strlit("noautoconnect");
    reveal_strlit("list");
    assert("add"@.len() == 3 && "remove"@.len() == 6 && "autoconnect"@.len() == 11
        && "noautoconnect"@.len() == 13 && "list"@.len() == 4);
    if args.len() >= 4 && args[1] == "server"@ && is_server_action(args[2]) {
        assert(args[2] != "list"@);
        assert(word(args, 1) == Some(args[1]));
        assert(word(args, 2) == Some(args[2]));
        assert(word(args, 3) == Some(args[3]));
    }
}

/// Reads a `/discord` command from its words.
pub fn parse_command(args: &Vec<String>) -> (r: Result<DiscordCmd, CommandError>)
    ensures
        match (r, parse_spec(texts(args@))) {
            (Ok(c), Ok(v)) => cmd_view(c) == v,
            (Err(e), Err(v)) => error_view(e) == v,
            _ => false,
        },
{
    let ghost av = texts(args@);
    if args.len() < 2 {
        return Ok(DiscordCmd::Nothing);
    }
    if word_is(args, 1, "server") {
        if args.len() < 3 {
            return Err(CommandError::MissingSubcommand(String::from_str("server")));
        }
        if word_is(args, 2, "list") {
            return Ok(DiscordCmd::ServerList);
        }
        let which: u8 = if word_is(args, 2, "add") {
            0
        } else if word_is(args, 2, "remove") {
            1
        } else if word_is(args, 2, "autoconnect") {
            2
        } else if word_is(args, 2, "noautoconnect") {
            3
        } else {
            return Err(CommandError::UnknownSubcommand(copy_string(&args[2])));
        };
        return match arg_at(args, 3) {
            Some(n) => Ok(
                if which == 0 {
                    DiscordCmd::ServerAdd(n)
                } else if which == 1 {
                    DiscordCmd::ServerRemove(n)
                } else if which == 2 {
                    DiscordCmd::ServerAutoconnect(n)
                } else {
                    DiscordCmd::ServerNoautoconnect(n)
                },
            ),
            None => Err(CommandError::MissingArgument(String::from_str("name"))),
        };
    }
    if word_is(args, 1, "channel") {
        if args.len() < 3 {
            return Err(CommandError::MissingSubcommand(String::from_str("channel")));
        }
        let which: u8 = if word_is(args, 2, "autojoin") {
            0
        } else if word_is(args, 2, "noautojoin") {
            1
        } else if word_is(args, 2, "join") {
            2
        } else {
            return Err(CommandError::UnknownSubcommand(copy_string(&args[2])));
        };
        return match (arg_at(args, 3), arg_at(args, 4)) {
            (Some(guild), Some(name)) => Ok(
                if which == 0 {
                    DiscordCmd::ChannelAutojoin { guild, name }
                } else if which == 1 {
                    DiscordCmd::ChannelNoautojoin { guild, name }
                } else {
                    DiscordCmd::ChannelJoin { guild, name }
                },
            ),
            (None, _) => Err(CommandError::MissingArgument(String::from_str("guild_name"))),
            (_, None) => Err(CommandError::MissingArgument(String::from_str("name"))),
        };
    }
    if word_is(args, 1, "query") {
        return match arg_at(args, 2) {
            Some(u) => Ok(DiscordCmd::Query(u)),
            None => Err(CommandError::MissingArgument(String::from_str("user"))),
        };
    }
    if word_is(args, 1, "token") {
        return match arg_at(args, 2) {
            Some(t) => Ok(DiscordCmd::Token(t)),
            None => Err(CommandError::MissingArgument(String::from_str("token"))),
        };
    }
    if word_is(args, 1, "pins") {
        return Ok(DiscordCmd::Pins);
    }
    if word_is(args, 1, "more_history") {
        return Ok(DiscordCmd::MoreHistory);
    }
    if word_is(args, 1, "debug") {
        if args.len() < 3 {
            return Ok(DiscordCmd::Nothing);
        }
        return if word_is(args, 2, "buffer") {
            Ok(DiscordCmd::Debug(DebugCmd::Buffer))
        } else if word_is(args, 2, "buffers") {
            Ok(DiscordCmd::Debug(DebugCmd::Buffers))
        } else if word_is(args, 2, "shutdown") {
            Ok(DiscordCmd::Debug(DebugCmd::Shutdown))
        } else if word_is(args, 2, "members") {
            Ok(DiscordCmd::Debug(DebugCmd::Members))
        } else {
            Err(CommandError::UnknownSubcommand(copy_string(&args[2])))
        };
    }
    let kind = if word_is(args, 1, "me") {
        FormatKind::Me
    } else if word_is(args, 1, "tableflip") {
        FormatKind::Tableflip
    } else if word_is(args, 1, "unflip") {
        FormatKind::Unflip
    } else if word_is(args, 1, "shrug") {
        FormatKind::Shrug
    } else if word_is(args, 1, "spoiler") {
        FormatKind::Spoiler
    } else {
        return Err(CommandError::UnknownSubcommand(copy_string(&args[1])));
    };
    let rest = join_words(args, 2);
    Ok(DiscordCmd::Format { kind, text: trim_start(rest.as_str()) })
}

/// The index of the first guild whose buffer name is that of `target`.
pub open spec fn guild_match(names: Seq<Seq<char>>, target: Seq<char>) -> Option<int>
    decreases names.len(),
{
    if names.len() == 0 {
        None
    } else if cleaned(lowercase(names[0])) == cleaned(lowercase(target)) {
        Some(0)
    } else {
        match guild_match(names.drop_first(), target) {
            Some(i) => Some(i + 1),
            None => None,
        }
    }
}

/// Finds a guild by name, the way buffer names compare: the first whose
/// cleaned, lower case name is that of `target`.
pub fn search_guild_name(names: &Vec<String>, target: &str) -> (r: Option<usize>)
    ensures
        match guild_match(texts(names@), target@) {
            Some(i) => 0 <= i < names.len() && r == Some(i as usize),
            None => r is None,
        },
{
    let ghost nv = texts(names@);
    let wanted = clean_name(target);
    let mut i: usize = 0;
    assert(nv.skip(0) =~= nv);
    proof {
        lemma_guild_match_nonneg(nv, target@);
    }
    while i < names.len()
        invariant
            i <= names@.len(),
            nv == texts(names@),
            wanted@ == cleaned(lowercase(target@)),
            match guild_match(nv, target@) {
                Some(p) => p >= i && guild_match(nv.skip(i as int), target@) == Some(p - i),
                None => guild_match(nv.skip(i as int), target@) is None,
            },
        decreases names.len() - i,
    {
        assert(nv.skip(i as int)[0] == names@[i as int]@);
        let name = clean_name(names[i].as_str());
        if name == wanted {
            return Some(i);
        }
        assert(nv.skip(i as int).drop_first() =~= nv.skip(i + 1));
        proof {
            lemma_guild_match_nonneg(nv.skip(i + 1), target@);
        }
        i += 1;
    }
    None
}

proof fn lemma_guild_match_nonneg(names: Seq<Seq<char>>, target: Seq<char>)
    ensures
        match guild_match(names, target) {
            Some(i) => 0 <= i < names.len(),
            None => true,
        },
    decreases names.len(),
{
    if names.len() > 0 {
        lemma_guild_match_nonneg(names.drop_first(), target);
    }
}

/// The buffer names of a list of names.
pub open spec fn buffer_names(v: Seq<Seq<char>>) -> Seq<Seq<char>> {
    v.map_values(|n: Seq<char>| cleaned(lowercase(n)))
}

/// The channels of each guild, as values.
pub open spec fn all_choices(v: Seq<Vec<ChannelChoice>>) -> Seq<Seq<(Seq<char>, bool)>> {
    v.map_values(|c: Vec<ChannelChoice>| choices(c@))
}

/// The names of the guilds.
pub open spec fn guild_names_of(v: Seq<GuildChoice>) -> Seq<Seq<char>> {
    v.map_values(|g: GuildChoice| g.name@)
}

/// The cleaned texts, keeping their case.
pub open spec fn cleaned_all(v: Seq<Seq<char>>) -> Seq<Seq<char>> {
    v.map_values(|t: Seq<char>| cleaned(t))
}

/// The recipients' tags of each private channel.
pub open spec fn recipients(v: Seq<Vec<String>>) -> Seq<Seq<Seq<char>>> {
    v.map_values(|c: Vec<String>| texts(c@))
}

/// The `k`-th word of a completion's arguments, words being what lies
/// between spaces (`splitn(n, ' ').nth(k)` for `k < n - 1`).
pub open spec fn word_at(s: Seq<char>, k: int) -> Option<Seq<char>> {
    if 0 <= k < split_on(s, ' ').len() {
        Some(split_on(s, ' ')[k])
    } else {
        None
    }
}

fn word_at_exec(s: &str, k: usize) -> (r: Option<String>)
    ensures
        match word_at(s@, k as int) {
            Some(w) => r is Some && r->Some_0@ == w,
            None => r is None,
        },
{
    let pieces = split_char(s, ' ');
    if k < pieces.len() {
        assert(texts(pieces@)[k as int] == pieces@[k as int]@);
        Some(copy_string(&pieces[k]))
    } else {
        None
    }
}

/// The names offered to complete a guild argument: none after `list`,
/// otherwise every guild's buffer name.
pub open spec fn guild_completions_of(arguments: Seq<char>, names: Seq<Seq<char>>) -> Seq<Seq<char>> {
    if word_at(arguments, 1) == Some("list"@) {
        seq![]
    } else {
        buffer_names(names)
    }
}

/// Completes the guild argument of `/discord server ...` and `/discord channel ...`.
pub fn guild_completions(arguments: &str, names: &Vec<String>) -> (r: Vec<String>)
    ensures
        texts(r@) == guild_completions_of(
            arguments@,
            texts(names@),
        ),
{
    let ghost nv = texts(names@);
    let second = word_at_exec(arguments, 1);
    let is_list = match &second {
        Some(w) => *w == String::from_str("list"),
        None => false,
    };
    if is_list {
        let r: Vec<String> = Vec::new();
        assert(texts(r@) =~= Seq::<Seq<char>>::empty());
        return r;
    }
    let mut r: Vec<String> = Vec::new();
    let mut i: usize = 0;
    while i < names.len()
        invariant
            i <= names.len(),
            nv == texts(names@),
            texts(r@) == buffer_names(nv.take(i as int)),
        decreases names.len() - i,
    {
        let ghost before = texts(r@);
        let c = clean_name(names[i].as_str());
        let ghost cv = c@;
        r.push(c);
        assert(nv[i as int] == names@[i as int]@);
        assert(texts(r@) =~= before.push(cv));
        assert(buffer_names(nv.take(i + 1)) =~= buffer_names(nv.take(
            i as int,
        )).push(cleaned(lowercase(nv[i as int]))));
        i += 1;
    }
    assert(nv.take(nv.len() as int) =~= nv);
    r
}

/// A channel of a guild as the commands see it: its name and whether it is
/// a text channel the user can read.
pub struct ChannelChoice {
    pub name: String,
    pub text: bool,
}

/// The channels of a guild, as values.
pub open spec fn choices(v: Seq<ChannelChoice>) -> Seq<(Seq<char>, bool)> {
    v.map_values(|c: ChannelChoice| (c.name@, c.text))
}

/// The buffer names of the text channels, in order.
pub open spec fn text_channel_names(chs: Seq<(Seq<char>, bool)>) -> Seq<Seq<char>>
    decreases chs.len(),
{
    if chs.len() == 0 {
        seq![]
    } else {
        let r = text_channel_names(chs.drop_last());
        if chs.last().1 {
            r.push(cleaned(lowercase(chs.last().0)))
        } else {
            r
        }
    }
}

/// The names offered to complete a channel argument: those of the text
/// channels of the guild named by the argument before it; `None` where
/// there is no such argument.
pub open spec fn channel_completions_of(
    arguments: Seq<char>,
    guild_names: Seq<Seq<char>>,
    channels: Seq<Seq<(Seq<char>, bool)>>,
) -> Option<Seq<Seq<char>>> {
    match word_at(arguments, 2) {
        None => None,
        Some(g) => match guild_match(guild_names, g) {
            Some(i) => Some(
                if i < channels.len() {
                    text_channel_names(channels[i])
                } else {
                    seq![]
                },
            ),
            None => Some(seq![]),
        },
    }
}

fn text_names(chs: &Vec<ChannelChoice>) -> (r: Vec<String>)
    ensures
        texts(r@) == text_channel_names(choices(chs@)),
{
    let ghost cv = choices(chs@);
    let mut r: Vec<String> = Vec::new();
    let mut i: usize = 0;
    assert(cv.take(0) =~= Seq::<(Seq<char>, bool)>::empty());
    while i < chs.len()
        invariant
            i <= chs.len(),
            cv == choices(chs@),
            texts(r@) == text_channel_names(cv.take(i as int)),
        decreases chs.len() - i,
    {
        let ghost before = texts(r@);
        assert(cv.take(i + 1).drop_last() =~= cv.take(i as int));
        assert(cv.take(i + 1).last() == (chs@[i as int].name@, chs@[i as int].text));
        if chs[i].text {
            r.push(clean_name(chs[i].name.as_str()));
            assert(texts(r@) =~= before.push(
                cleaned(lowercase(chs@[i as int].name@)),
            ));
        }
        i += 1;
    }
    assert(cv.take(cv.len() as int) =~= cv);
    r
}

/// Completes the channel argument of `/discord channel ...`; `None` where
/// the arguments name no guild.
pub fn channel_completions(
    arguments: &str,
    guild_names: &Vec<String>,
    channels: &Vec<Vec<ChannelChoice>>,
) -> (r: Option<Vec<String>>)
    ensures
        match channel_completions_of(
            arguments@,
            texts(guild_names@),
            all_choices(channels@),
        ) {
            Some(v) => r is Some && texts(r->Some_0@) == v,
            None => r is None,
        },
{
    let guild = match word_at_exec(arguments, 2) {
        Some(g) => g,
        None => return None,
    };
    proof {
        lemma_guild_match_nonneg(texts(guild_names@), guild@);
    }
    let gs = guild.as_str();
    assert(gs@ == guild@);
    match search_guild_name(guild_names, gs) {
        Some(i) => {
            if i < channels.len() {
                let ghost cv = all_choices(channels@);
                assert(cv[i as int] == choices(channels@[i as int]@));
                assert(word_at(arguments@, 2) == Some(guild@));
                let r = text_names(&channels[i]);
                assert(channel_completions_of(
                    arguments@,
                    texts(guild_names@),
                    cv,
                ) == Some(text_channel_names(cv[i as int])));
                Some(r)
            } else {
                let r: Vec<String> = Vec::new();
                assert(texts(r@) =~= Seq::<Seq<char>>::empty());
                Some(r)
            }
        },
        None => {
            let r: Vec<String> = Vec::new();
            assert(texts(r@) =~= Seq::<Seq<char>>::empty());
            Some(r)
        },
    }
}

/// The first text channel whose buffer name is that of `target`.
pub open spec fn channel_match(chs: Seq<(Seq<char>, bool)>, target: Seq<char>) -> Option<int>
    decreases chs.len(),
{
    if chs.len() == 0 {
        None
    } else if chs[0].1 && cleaned(lowercase(chs[0].0)) == cleaned(lowercase(target)) {
        Some(0)
    } else {
        match channel_match(chs.drop_first(), target) {
            Some(i) => Some(i + 1),
            None => None,
        }
    }
}

proof fn lemma_channel_match_in_bounds(chs: Seq<(Seq<char>, bool)>, target: Seq<char>)
    ensures
        match channel_match(chs, target) {
            Some(i) => 0 <= i < chs.len(),
            None => true,
        },
    decreases chs.len(),
{
    if chs.len() > 0 {
        lemma_channel_match_in_bounds(chs.drop_first(), target);
    }
}

/// Finds a text channel of a guild by name, the way buffer names compare.
pub fn search_channel_name(chs: &Vec<ChannelChoice>, target: &str) -> (r: Option<usize>)
    ensures
        match channel_match(choices(chs@), target@) {
            Some(i) => 0 <= i < chs.len() && r == Some(i as usize),
            None => r is None,
        },
{
    let ghost cv = choices(chs@);
    let wanted = clean_name(target);
    let mut i: usize = 0;
    assert(cv.skip(0) =~= cv);
    proof {
        lemma_channel_match_in_bounds(cv, target@);
    }
    while i < chs.len()
        invariant
            i <= chs@.len(),
            cv == choices(chs@),
            wanted@ == cleaned(lowercase(target@)),
            match channel_match(cv, target@) {
                Some(p) => p >= i && channel_match(cv.skip(i as int), target@) == Some(p - i),
                None => channel_match(cv.skip(i as int), target@) is None,
            },
        decreases chs.len() - i,
    {
        assert(cv.skip(i as int)[0] == (chs@[i as int].name@, chs@[i as int].text));
        if chs[i].text {
            let name = clean_name(chs[i].name.as_str());
            if name == wanted {
                return Some(i);
            }
        }
        assert(cv.skip(i as int).drop_first() =~= cv.skip(i + 1));
        proof {
            lemma_channel_match_in_bounds(cv.skip(i + 1), target@);
        }
        i += 1;
    }
    None
}

/// A guild as `/discord channel ...` sees it: its name, whether it has
/// been added to the configuration, and its channels.
pub struct GuildChoice {
    pub name: String,
    pub added: bool,
    pub channels: Vec<ChannelChoice>,
}

/// The guild and channel that `/discord channel <guild> <channel>` names,
/// or the message saying why there is none.
pub open spec fn resolve_of(
    guilds: Seq<GuildChoice>,
    guild_name: Seq<char>,
    channel_name: Seq<char>,
) -> Result<(int, int), Seq<char>> {
    match guild_match(guild_names_of(guilds), guild_name) {
        None => Err("could not find server: \""@ + guild_name + "\""@),
        Some(g) => match channel_match(choices(guilds[g].channels@), channel_name) {
            None => Err("could not find channel: \""@ + channel_name + "\""@),
            Some(c) => if guilds[g].added {
                Ok((g, c))
            } else {
                Err("discord: could not find server \""@ + guilds[g].name@ + "\" in config"@)
            },
        },
    }
}

fn quoted(prefix: &str, s: &str, suffix: &str) -> (r: String)
    ensures
        r@ == prefix@ + s@ + suffix@,
{
    let mut r = String::from_str(prefix);
    push_str(&mut r, s);
    push_str(&mut r, suffix);
    r
}

/// Resolves the guild and channel of `/discord channel ...`: their indices,
/// or the message to print.
pub fn resolve_channel_and_guild(
    guilds: &Vec<GuildChoice>,
    guild_name: &str,
    channel_name: &str,
) -> (r: Result<(usize, usize), String>)
    ensures
        match (r, resolve_of(guilds@, guild_name@, channel_name@)) {
            (Ok((g, c)), Ok((gv, cv))) => g == gv && c == cv,
            (Err(m), Err(mv)) => m@ == mv,
            _ => false,
        },
{
    let ghost gv = guild_names_of(guilds@);
    let mut names: Vec<String> = Vec::new();
    let mut i: usize = 0;
    while i < guilds.len()
        invariant
            i <= guilds.len(),
            gv == guild_names_of(guilds@),
            texts(names@) == gv.take(i as int),
        decreases guilds.len() - i,
    {
        let ghost before = texts(names@);
        names.push(copy_string(&guilds[i].name));
        assert(texts(names@) =~= before.push(guilds@[i as int].name@));
        assert(gv.take(i + 1) =~= gv.take(i as int).push(gv[i as int]));
        i += 1;
    }
    assert(gv.take(gv.len() as int) =~= gv);
    proof {
        lemma_guild_match_nonneg(gv, guild_name@);
    }
    assert(texts(names@) == gv);
    match search_guild_name(&names, guild_name) {
        None => Err(quoted("could not find server: \"", guild_name, "\"")),
        Some(g) => {
            assert(guild_match(gv, guild_name@) == Some(g as int));
            match search_channel_name(&guilds[g].channels, channel_name) {
                None => Err(quoted("could not find channel: \"", channel_name, "\"")),
                Some(c) => {
                    if guilds[g].added {
                        Ok((g, c))
                    } else {
                        Err(
                            quoted(
                                "discord: could not find server \"",
                                guilds[g].name.as_str(),
                                "\" in config",
                            ),
                        )
                    }
                },
            }
        },
    }
}

/// The `/discord server` subcommands that name a guild.
#[derive(Clone, Copy, Debug, PartialEq, Eq)]
pub enum ServerOp {
    Add,
    Remove,
    Autoconnect,
    Noautoconnect,
}

/// What a `/discord server` subcommand prints, and whether it goes ahead,
/// given the guild it found (its name and whether it is configured), or
/// `None` where the name matches no guild.
pub open spec fn server_outcome_of(op: ServerOp, query: Seq<char>, found: Option<(Seq<char>, bool)>) -> (Seq<char>, bool) {
    match found {
        None => (
            match op {
                ServerOp::Add => "discord: could not find guild: "@ + query,
                ServerOp::Noautoconnect => "discord: could not find server: \""@ + query + "\""@,
                _ => "discord: could not find server: "@ + query,
            },
            false,
        ),
        Some((name, configured)) => match op {
            ServerOp::Add => if configured {
                ("discord: \""@ + name + "\" has already been added"@, false)
            } else {
                ("discord: added \""@ + name + "\""@, true)
            },
            ServerOp::Remove => if configured {
                ("discord: removed server \""@ + name + "\""@, true)
            } else {
                ("discord: server \""@ + name + "\" not in config"@, false)
            },
            ServerOp::Autoconnect => if configured {
                ("discord: now autoconnecting to server \""@ + name + "\""@, true)
            } else {
                ("discord: server \""@ + name + "\" not in config"@, false)
            },
            ServerOp::Noautoconnect => if configured {
                ("discord: no longer autoconnecting to server \""@ + name + "\""@, true)
            } else {
                ("discord: server \""@ + name + "\" not in config"@, false)
            },
        },
    }
}

/// Decides a `/discord server` subcommand once its guild has been looked up.
pub fn server_outcome(op: ServerOp, query: &str, found: Option<(&str, bool)>) -> (r: (String, bool))
    ensures
        (r.0@, r.1) == server_outcome_of(
            op,
            query@,
            match found {
                Some((n, c)) => Some((n@, c)),
                None => None,
            },
        ),
{
    match found {
        None => {
            let m = match op {
                ServerOp::Add => quoted("discord: could not find guild: ", query, ""),
                ServerOp::Noautoconnect => quoted("discord: could not find server: \"", query, "\""),
                _ => quoted("discord: could not find server: ", query, ""),
            };
            proof {
                reveal_strlit("");
            }
            (m, false)
        },
        Some((name, configured)) => match op {
            ServerOp::Add => if configured {
                (quoted("discord: \"", name, "\" has already been added"), false)
            } else {
                (quoted("discord: added \"", name, "\""), true)
            },
            ServerOp::Remove => if configured {
                (quoted("discord: removed server \"", name, "\""), true)
            } else {
                (quoted("discord: server \"", name, "\" not in config"), false)
            },
            ServerOp::Autoconnect => if configured {
                (quoted("discord: now autoconnecting to server \"", name, "\""), true)
            } else {
                (quoted("discord: server \"", name, "\" not in config"), false)
            },
            ServerOp::Noautoconnect => if configured {
                (quoted("discord: no longer autoconnecting to server \"", name, "\""), true)
            } else {
                (quoted("discord: server \"", name, "\" not in config"), false)
            },
        },
    }
}

/// What a `/discord server` subcommand prints when there is no connection.
pub fn not_connected_text(op: ServerOp) -> (s: String)
    ensures
        s@ == (match op {
            ServerOp::Add => "discord: must be connected to add servers"@,
            ServerOp::Remove => "discord: must be connected to remove servers"@,
            _ => "discord: must be connected to enable server autoconnect"@,
        }),
{
    match op {
        ServerOp::Add => String::from_str("discord: must be connected to add servers"),
        ServerOp::Remove => String::from_str("discord: must be connected to remove servers"),
        _ => String::from_str("discord: must be connected to enable server autoconnect"),
    }
}

/// A configured guild as `/discord server list` shows it: its id, its name
/// where it is known, and its autojoined and watched channels with their
/// names where they are known.
pub struct GuildListing {
    pub id: u64,
    pub name: Option<String>,
    pub autojoin: Vec<(u64, Option<String>)>,
    pub watched: Vec<(u64, Option<String>)>,
}

/// The line of a channel of the listing.
pub open spec fn channel_listing_line(c: (u64, Option<String>)) -> Seq<char> {
    match c.1 {
        Some(n) => "  #"@ + n@,
        None => "  #ChannelId("@ + decimal(c.0 as nat) + ")"@,
    }
}

/// The lines of a list of channels.
pub open spec fn channel_listing(v: Seq<(u64, Option<String>)>) -> Seq<Seq<char>> {
    v.map_values(|c: (u64, Option<String>)| channel_listing_line(c))
}

/// The lines that show one guild.
pub open spec fn guild_listing_lines(t: Seq<(Seq<char>, Seq<char>)>, g: GuildListing) -> Seq<Seq<char>> {
    seq![
        match g.name {
            Some(n) => code_in(t, "chat_server"@) + n@,
            None => "GuildId("@ + decimal(g.id as nat) + ")"@,
        },
    ] + seq![" Autojoin channels:"@] + channel_listing(g.autojoin@) + seq![" Watched channels:"@]
        + channel_listing(g.watched@)
}

/// The lines of `/discord server list`, after its heading.
pub open spec fn listing_lines(t: Seq<(Seq<char>, Seq<char>)>, gs: Seq<GuildListing>) -> Seq<Seq<char>>
    decreases gs.len(),
{
    if gs.len() == 0 {
        seq![]
    } else {
        listing_lines(t, gs.drop_last()) + guild_listing_lines(t, gs.last())
    }
}

fn push_channel_lines(out: &mut Vec<String>, v: &Vec<(u64, Option<String>)>)
    ensures
        texts(final(out)@) == texts(old(out)@) + channel_listing(v@),
{
    let mut i: usize = 0;
    while i < v.len()
        invariant
            i <= v.len(),
            texts(out@) == texts(old(out)@) + channel_listing(v@.take(i as int)),
        decreases v.len() - i,
    {
        let ghost before = texts(out@);
        let line = match &v[i].1 {
            Some(n) => quoted("  #", n.as_str(), ""),
            None => quoted("  #ChannelId(", u64_to_string(v[i].0).as_str(), ")"),
        };
        proof {
            reveal_strlit("");
        }
        let ghost lv = line@;
        assert(lv == channel_listing_line(v@[i as int]));
        out.push(line);
        assert(texts(out@) =~= before.push(lv));
        assert(channel_listing(v@.take(i + 1)) =~= channel_listing(v@.take(i as int)).push(lv));
        i += 1;
    }
    assert(v@.take(v@.len() as int) =~= v@);
}

/// The lines `/discord server list` prints: a heading, then each guild with
/// its autojoined and watched channels.
pub fn server_list_lines(table: &ColorTable, guilds: &Vec<GuildListing>) -> (r: Vec<String>)
    ensures
        texts(r@) == seq!["discord: servers:"@] + listing_lines(table@, guilds@),
{
    let mut out: Vec<String> = Vec::new();
    out.push(String::from_str("discord: servers:"));
    let mut i: usize = 0;
    assert(texts(out@) =~= seq!["discord: servers:"@] + listing_lines(table@, guilds@.take(0)));
    while i < guilds.len()
        invariant
            i <= guilds.len(),
            texts(out@) == seq!["discord: servers:"@] + listing_lines(table@, guilds@.take(i as int)),
        decreases guilds.len() - i,
    {
        let ghost before = texts(out@);
        let g = &guilds[i];
        let first = match &g.name {
            Some(n) => {
                let mut l = table.code("chat_server");
                push_str(&mut l, n.as_str());
                l
            },
            None => quoted("GuildId(", u64_to_string(g.id).as_str(), ")"),
        };
        let ghost fv = first@;
        assert(fv == (match g.name {
            Some(n) => code_in(table@, "chat_server"@) + n@,
            None => "GuildId("@ + decimal(g.id as nat) + ")"@,
        }));
        out.push(first);
        assert(texts(out@) =~= before + seq![fv]);
        out.push(String::from_str(" Autojoin channels:"));
        assert(texts(out@) =~= before + seq![fv] + seq![" Autojoin channels:"@]);
        let ghost s1 = texts(out@);
        push_channel_lines(&mut out, &g.autojoin);
        let ghost s2 = texts(out@);
        out.push(String::from_str(" Watched channels:"));
        assert(texts(out@) =~= s2 + seq![" Watched channels:"@]);
        let ghost s3 = texts(out@);
        push_channel_lines(&mut out, &g.watched);
        assert(guilds@.take(i + 1).drop_last() =~= guilds@.take(i as int));
        assert(guilds@.take(i + 1).last() == *g);
        assert(texts(out@) =~= before + guild_listing_lines(table@, *g));
        i += 1;
    }
    assert(guilds@.take(guilds@.len() as int) =~= guilds@);
    out
}

/// The name `/discord query` knows a private channel by: its recipients'
/// tags, cleaned, joined by commas.
pub open spec fn query_name(tags: Seq<Seq<char>>) -> Seq<char> {
    joined(cleaned_all(tags), ","@)
}

fn query_name_exec(tags: &Vec<String>) -> (r: String)
    ensures
        r@ == query_name(texts(tags@)),
{
    let ghost tv = cleaned_all(texts(tags@));
    let mut r = String::new();
    let mut i: usize = 0;
    assert(tv.take(0) =~= Seq::<Seq<char>>::empty());
    while i < tags.len()
        invariant
            i <= tags.len(),
            tv == cleaned_all(texts(tags@)),
            r@ == joined(tv.take(i as int), ","@),
        decreases tags.len() - i,
    {
        assert(tv.take(i + 1).drop_last() =~= tv.take(i as int));
        assert(tv[i as int] == cleaned(tags@[i as int]@));
        let c = clean_name_with_case(tags[i].as_str());
        if i > 0 {
            push_str(&mut r, ",");
        } else {
            assert(r@ =~= Seq::<char>::empty());
        }
        push_str(&mut r, c.as_str());
        if i == 0 {
            assert(r@ =~= tv.take(1)[0]);
        }
        i += 1;
    }
    assert(tv.take(tv.len() as int) =~= tv);
    r
}

/// The first private channel whose query name is `user`.
pub open spec fn query_match(channels: Seq<Seq<Seq<char>>>, user: Seq<char>) -> Option<int>
    decreases channels.len(),
{
    if channels.len() == 0 {
        None
    } else if query_name(channels[0]) == user {
        Some(0)
    } else {
        match query_match(channels.drop_first(), user) {
            Some(i) => Some(i + 1),
            None => None,
        }
    }
}

proof fn lemma_query_match_in_bounds(channels: Seq<Seq<Seq<char>>>, user: Seq<char>)
    ensures
        match query_match(channels, user) {
            Some(i) => 0 <= i < channels.len(),
            None => true,
        },
    decreases channels.len(),
{
    if channels.len() > 0 {
        lemma_query_match_in_bounds(channels.drop_first(), user);
    }
}

/// The private channel `/discord query <user>` opens, given each private
/// channel's recipients' tags.
pub fn find_private_channel(channels: &Vec<Vec<String>>, user: &str) -> (r: Option<usize>)
    ensures
        match query_match(recipients(channels@), user@) {
            Some(i) => 0 <= i < channels.len() && r == Some(i as usize),
            None => r is None,
        },
{
    let ghost cv = recipients(channels@);
    let wanted = String::from_str(user);
    let mut i: usize = 0;
    assert(cv.skip(0) =~= cv);
    proof {
        lemma_query_match_in_bounds(cv, user@);
    }
    while i < channels.len()
        invariant
            i <= channels@.len(),
            cv == recipients(channels@),
            wanted@ == user@,
            match query_match(cv, user@) {
                Some(p) => p >= i && query_match(cv.skip(i as int), user@) == Some(p - i),
                None => query_match(cv.skip(i as int), user@) is None,
            },
        decreases channels.len() - i,
    {
        assert(cv.skip(i as int)[0] == texts(channels@[i as int]@));
        let name = query_name_exec(&channels[i]);
        if name == wanted {
            return Some(i);
        }
        assert(cv.skip(i as int).drop_first() =~= cv.skip(i + 1));
        proof {
            lemma_query_match_in_bounds(cv.skip(i + 1), user@);
        }
        i += 1;
    }
    None
}

/// Takes a channel off an autojoin list: its first occurrence, if any.
pub fn remove_autojoin(list: &mut Vec<u64>, id: u64) -> (removed: bool)
    ensures
        removed == old(list)@.contains(id),
        removed ==> exists|k: int|
            0 <= k < old(list)@.len() && old(list)@[k] == id && (forall|j: int| 0 <= j < k ==> old(list)@[j] != id)
                && final(list)@ == old(list)@.remove(k),
        !removed ==> final(list)@ == old(list)@,
{
    let mut i: usize = 0;
    while i < list.len()
        invariant
            i <= list.len(),
            list@ == old(list)@,
            forall|j: int| 0 <= j < i ==> list@[j] != id,
        decreases list.len() - i,
    {
        if list[i] == id {
            let ghost k = i as int;
            assert(old(list)@[k] == id);
            list.remove(i);
            return true;
        }
        i += 1;
    }
    false
}

/// Rewrites a `/me` command line into the `/discord me` one.
pub fn rewrite_me(command: &str) -> (r: Option<String>)
    ensures
        match r {
            Some(x) => exists|k: int| 0 <= k < command@.len() && command@[k] == ' ' && x@ == "/discord me "@
                + trimmed_start(command@.skip(k + 1)) && forall|j: int| 0 <= j < k ==> command@[j] != ' ',
            None => forall|j: int| 0 <= j < command@.len() ==> command@[j] != ' ',
        },
{
    let v = crate::text::to_chars(command);
    let mut k: usize = 0;
    while k < v.len() && v[k] != ' '
        invariant
            k <= v.len(),
            v@ == command@,
            forall|j: int| 0 <= j < k ==> v@[j] != ' ',
        decreases v.len() - k,
    {
        k += 1;
    }
    if k == v.len() {
        return None;
    }
    let rest = crate::text::string_of(&v, k + 1, v.len());
    assert(v@.subrange(k + 1, v@.len() as int) =~= command@.skip(k + 1));
    let mut r = String::from_str("/discord me ");
    push_str(&mut r, trim_start(rest.as_str()).as_str());
    Some(r)
}

} // verus!
