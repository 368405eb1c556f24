//! The names and local variables of the plugin's weechat buffers, and who
//! may write in a group conversation.
use crate::text::{copy_string, push_str, texts};
use crate::typing::joined;
use crate::utils::{clean_name, cleaned, decimal, lowercase, u64_to_string};
use vstd::prelude::*;

verus! {

/// The names of a channel buffer and the local variables set on it.
pub struct BufferNames {
    /// The buffer's full name, by which weechat finds it.
    pub name: String,
    pub short_name: String,
    /// The title, where one is set.
    pub title: Option<String>,
    pub localvars: Vec<(String, String)>,
}

/// The local variables, as values.
pub open spec fn vars(v: Seq<(String, String)>) -> Seq<(Seq<char>, Seq<char>)> {
    v.map_values(|p: (String, String)| (p.0@, p.1@))
}

/// The buffer names of the names, lower case and cleaned.
pub open spec fn cleaned_names(v: Seq<Seq<char>>) -> Seq<Seq<char>> {
    v.map_values(|n: Seq<char>| cleaned(lowercase(n)))
}

fn join(parts: &Vec<String>, sep: &str) -> (s: String)
    ensures
        s@ == joined(texts(parts@), sep@),
{
    let ghost pv = texts(parts@);
    let mut s = String::new();
    let mut i: usize = 0;
    assert(pv.take(0) =~= Seq::<Seq<char>>::empty());
    while i < parts.len()
        invariant
            i <= parts.len(),
            pv == texts(parts@),
            s@ == joined(pv.take(i as int), sep@),
        decreases parts.len() - i,
    {
        assert(pv.take(i + 1).drop_last() =~= pv.take(i as int));
        assert(pv[i as int] == parts@[i as int]@);
        if i > 0 {
            push_str(&mut s, sep);
        } else {
            assert(s@ =~= Seq::<char>::empty());
        }
        push_str(&mut s, parts[i].as_str());
        if i == 0 {
            assert(s@ =~= pv.take(1)[0]);
        }
        i += 1;
    }
    assert(pv.take(pv.len() as int) =~= pv);
    s
}

fn concat(a: &str, b: &str) -> (s: String)
    ensures
        s@ == a@ + b@,
{
    let mut s = String::from_str(a);
    push_str(&mut s, b);
    s
}

fn pair(a: &str, b: String) -> (p: (String, String))
    ensures
        p.0@ == a@,
        p.1@ == b@,
{
    (String::from_str(a), b)
}

/// The buffer of a guild.
pub open spec fn guild_buffer(guild_name: Seq<char>, guild_id: u64) -> (Seq<char>, Seq<char>, Seq<(Seq<char>, Seq<char>)>) {
    let g = cleaned(lowercase(guild_name));
    (
        "discord."@ + g,
        guild_name,
        seq![("type"@, "server"@), ("server"@, g), ("guild_id"@, decimal(guild_id as nat))],
    )
}

/// Names the buffer of a guild.
pub fn guild_names(guild_name: &str, guild_id: u64) -> (b: BufferNames)
    ensures
        (b.name@, b.short_name@, vars(b.localvars@)) == guild_buffer(guild_name@, guild_id),
        b.title is None,
{
    let g = clean_name(guild_name);
    let name = concat("discord.", g.as_str());
    let mut localvars: Vec<(String, String)> = Vec::new();
    localvars.push(pair("type", String::from_str("server")));
    localvars.push(pair("server", g));
    localvars.push(pair("guild_id", u64_to_string(guild_id)));
    let b = BufferNames { name, short_name: String::from_str(guild_name), title: None, localvars };
    assert(vars(b.localvars@) =~= guild_buffer(guild_name@, guild_id).2);
    b
}

/// The buffer of a guild channel.
pub open spec fn guild_channel_buffer(
    guild_name: Seq<char>,
    channel_name: Seq<char>,
    nick: Seq<char>,
    guild_id: u64,
    channel_id: u64,
) -> (Seq<char>, Seq<char>, Seq<(Seq<char>, Seq<char>)>) {
    let g = cleaned(lowercase(guild_name));
    let c = cleaned(lowercase(channel_name));
    (
        "discord."@ + g + "."@ + c,
        "#"@ + channel_name,
        seq![
            ("nick"@, nick),
            ("type"@, "channel"@),
            ("server"@, g),
            ("channel"@, c),
            ("guild_id"@, decimal(guild_id as nat)),
            ("channel_id"@, decimal(channel_id as nat)),
        ],
    )
}

/// Names the buffer of a guild channel; `nick` is the user's nick there.
pub fn guild_channel_names(
    guild_name: &str,
    channel_name: &str,
    nick: &str,
    guild_id: u64,
    channel_id: u64,
) -> (b: BufferNames)
    ensures
        (b.name@, b.short_name@, vars(b.localvars@)) == guild_channel_buffer(
            guild_name@,
            channel_name@,
            nick@,
            guild_id,
            channel_id,
        ),
        b.title is None,
{
    let g = clean_name(guild_name);
    let c = clean_name(channel_name);
    let mut name = String::from_str("discord.");
    push_str(&mut name, g.as_str());
    push_str(&mut name, ".");
    push_str(&mut name, c.as_str());
    let short_name = concat("#", channel_name);
    let mut localvars: Vec<(String, String)> = Vec::new();
    localvars.push(pair("nick", String::from_str(nick)));
    localvars.push(pair("type", String::from_str("channel")));
    localvars.push(pair("server", copy_string(&g)));
    localvars.push(pair("channel", c));
    localvars.push(pair("guild_id", u64_to_string(guild_id)));
    localvars.push(pair("channel_id", u64_to_string(channel_id)));
    let b = BufferNames { name, short_name, title: None, localvars };
    assert(vars(b.localvars@) =~= guild_channel_buffer(
        guild_name@,
        channel_name@,
        nick@,
        guild_id,
        channel_id,
    ).2);
    b
}

/// The buffer of a private conversation, from the recipients' names and
/// tags and the user's own name.
pub open spec fn private_buffer(
    names: Seq<Seq<char>>,
    tags: Seq<Seq<char>>,
    own_name: Seq<char>,
    channel_id: u64,
) -> (Seq<char>, Seq<char>, Seq<char>, Seq<(Seq<char>, Seq<char>)>) {
    (
        "discord.dm."@ + joined(cleaned_names(names), "."@),
        "DM with "@ + joined(names, ", "@),
        "DM with "@ + joined(tags, ", "@),
        seq![("nick"@, "@"@ + own_name), ("channel_id"@, decimal(channel_id as nat))],
    )
}

/// Names the buffer of a private conversation; its title is its full name.
pub fn private_channel_names(
    names: &Vec<String>,
    tags: &Vec<String>,
    own_name: &str,
    channel_id: u64,
) -> (b: BufferNames)
    ensures
        b.title is Some,
        (b.name@, b.short_name@, b.title->Some_0@, vars(b.localvars@)) == private_buffer(
            texts(names@),
            texts(tags@),
            own_name@,
            channel_id,
        ),
{
    let ghost nv = texts(names@);
    let mut cleaned_v: Vec<String> = Vec::new();
    let mut i: usize = 0;
    while i < names.len()
        invariant
            i <= names.len(),
            nv == texts(names@),
            texts(cleaned_v@) == cleaned_names(nv.take(i as int)),
        decreases names.len() - i,
    {
        let ghost before = texts(cleaned_v@);
        let c = clean_name(names[i].as_str());
        let ghost cv = c@;
        cleaned_v.push(c);
        assert(texts(cleaned_v@) =~= before.push(cv));
        assert(nv[i as int] == names@[i as int]@);
        assert(cleaned_names(nv.take(i + 1)) =~= cleaned_names(nv.take(i as int)).push(
            cleaned(lowercase(nv[i as int])),
        ));
        i += 1;
    }
    assert(nv.take(nv.len() as int) =~= nv);
    let name = concat("discord.dm.", join(&cleaned_v, ".").as_str());
    let short_name = concat("DM with ", join(names, ", ").as_str());
    let full_name = concat("DM with ", join(tags, ", ").as_str());
    let mut localvars: Vec<(String, String)> = Vec::new();
    localvars.push(pair("nick", concat("@", own_name)));
    localvars.push(pair("channel_id", u64_to_string(channel_id)));
    let b = BufferNames { name, short_name, title: Some(full_name), localvars };
    assert(vars(b.localvars@) =~= private_buffer(
        texts(names@),
        texts(tags@),
        own_name@,
        channel_id,
    ).3);
    b
}

/// The buffer of a channel's pinned messages; the channel is called
/// `Unknown Channel` where its name is not known.
pub open spec fn pins_buffer(
    channel_name: Option<Seq<char>>,
    guild_id: Option<u64>,
    channel_id: u64,
) -> (Seq<char>, Seq<char>, Seq<(Seq<char>, Seq<char>)>) {
    let name = match channel_name {
        Some(n) => n,
        None => "Unknown Channel"@,
    };
    (
        "discord.pins."@ + cleaned(lowercase(name)),
        "Pins for #"@ + name,
        match guild_id {
            Some(g) => seq![("guild_id"@, decimal(g as nat)), ("channel_id"@, decimal(channel_id as nat))],
            None => seq![("channel_id"@, decimal(channel_id as nat))],
        },
    )
}

/// Names the buffer of a channel's pinned messages.
pub fn pins_names(channel_name: Option<&str>, guild_id: Option<u64>, channel_id: u64) -> (b: BufferNames)
    ensures
        (b.name@, b.short_name@, vars(b.localvars@)) == pins_buffer(
            match channel_name {
                Some(n) => Some(n@),
                None => None,
            },
            guild_id,
            channel_id,
        ),
        b.title is None,
{
    let name = match channel_name {
        Some(n) => String::from_str(n),
        None => String::from_str("Unknown Channel"),
    };
    let full = concat("discord.pins.", clean_name(name.as_str()).as_str());
    let short_name = concat("Pins for #", name.as_str());
    let mut localvars: Vec<(String, String)> = Vec::new();
    match guild_id {
        Some(g) => localvars.push(pair("guild_id", u64_to_string(g))),
        None => {},
    }
    localvars.push(pair("channel_id", u64_to_string(channel_id)));
    let b = BufferNames { name: full, short_name, title: None, localvars };
    assert(vars(b.localvars@) =~= pins_buffer(
        match channel_name {
            Some(n) => Some(n@),
            None => None,
        },
        guild_id,
        channel_id,
    ).2);
    b
}

/// Whether the user may write in a group: it is one of the recipients;
/// `None` where the user is not known.
pub fn group_can_send(current_user: Option<u64>, recipients: &Vec<u64>) -> (r: Option<bool>)
    ensures
        r == (match current_user {
            Some(u) => Some(recipients@.contains(u)),
            None => None,
        }),
{
    match current_user {
        Some(u) => {
            let mut i: usize = 0;
            while i < recipients.len()
                invariant
                    i <= recipients.len(),
                    current_user == Some(u),
                    forall|k: int| 0 <= k < i ==> recipients@[k] != u,
                decreases recipients.len() - i,
            {
                if recipients[i] == u {
                    assert(recipients@[i as int] == u);
                    assert(recipients@.contains(u));
                    return Some(true);
                }
                i += 1;
            }
            Some(false)
        },
        None => None,
    }
}

} // verus!
