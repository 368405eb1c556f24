//! Mentions written the human way in an outgoing message (`#channel`,
//! `@name#1234`, `@role`, `:emoji:`) turned into the form Discord reads.
use crate::directory::{
    channel_mention, emoji_mention, role_mention, user_mention, MemberInfo, Named, RoleInfo,
};
use crate::text::{copy_string, replace_all, replace_str};
use crate::utils::decimal;
use vstd::prelude::*;

verus! {

/// The matches of `#([a-z_\-\d]+)` in a text, in order: each whole match and
/// the channel name in it.
pub uninterp spec fn channel_refs_in(s: Seq<char>) -> Seq<(Seq<char>, Seq<char>)>;

/// The matches of `@(.{0,32}?)#(\d{2,4})` in a text, in order: each whole
/// match and the user name in it.
pub uninterp spec fn user_refs_in(s: Seq<char>) -> Seq<(Seq<char>, Seq<char>)>;

/// The matches of `@([^\s]{1,32})` in a text, in order: each whole match and
/// the role name in it.
pub uninterp spec fn role_refs_in(s: Seq<char>) -> Seq<(Seq<char>, Seq<char>)>;

/// The matches of `(\\?):(\w+):` in a text, in order: each whole match, the
/// backslash before it (or nothing) and the emoji name in it.
pub uninterp spec fn emoji_refs_in(s: Seq<char>) -> Seq<(Seq<char>, Seq<char>, Seq<char>)>;

/// The values of a list of string pairs.
pub open spec fn pairs(v: Seq<(String, String)>) -> Seq<(Seq<char>, Seq<char>)> {
    v.map_values(|p: (String, String)| (p.0@, p.1@))
}

/// The values of a list of string triples.
pub open spec fn triples(v: Seq<(String, String, String)>) -> Seq<(Seq<char>, Seq<char>, Seq<char>)> {
    v.map_values(|p: (String, String, String)| (p.0@, p.1@, p.2@))
}

/// `regex::Regex::captures_iter` with `#([a-z_\-\d]+)`: every match and its group,
/// in order. The contract claims only that the result is `channel_refs_in` of the text.
#[verifier::external_body]
fn channel_refs(input: &str) -> (r: Vec<(String, String)>)
    ensures
        pairs(r@) == channel_refs_in(input@),
{
    let re = regex::Regex::new(r"#([a-z_\-\d]+)").unwrap();
    re.captures_iter(input).map(|c| (c[0].to_string(), c[1].to_string())).collect()
}

/// `regex::Regex::captures_iter` with `@(.{0,32}?)#(\d{2,4})`: every match and its first group,
/// in order. The contract claims only that the result is `user_refs_in` of the text.
#[verifier::external_body]
fn user_refs(input: &str) -> (r: Vec<(String, String)>)
    ensures
        pairs(r@) == user_refs_in(input@),
{
    let re = regex::Regex::new(r"@(.{0,32}?)#(\d{2,4})").unwrap();
    re.captures_iter(input).map(|c| (c[0].to_string(), c[1].to_string())).collect()
}

/// `regex::Regex::captures_iter` with `@([^\s]{1,32})`: every match and its group,
/// in order. The contract claims only that the result is `role_refs_in` of the text.
#[verifier::external_body]
fn role_refs(input: &str) -> (r: Vec<(String, String)>)
    ensures
        pairs(r@) == role_refs_in(input@),
{
    let re = regex::Regex::new(r"@([^\s]{1,32})").unwrap();
    re.captures_iter(input).map(|c| (c[0].to_string(), c[1].to_string())).collect()
}

/// `regex::Regex::captures_iter` with `(\\?):(\w+):`: every match and its two groups,
/// in order. The contract claims only that the result is `emoji_refs_in` of the text.
#[verifier::external_body]
fn emoji_refs(input: &str) -> (r: Vec<(String, String, String)>)
    ensures
        triples(r@) == emoji_refs_in(input@),
{
    let re = regex::Regex::new(r"(\\?):(\w+):").unwrap();
    re.captures_iter(input).map(|c| (c[0].to_string(), c[1].to_string(), c[2].to_string())).collect()
}

/// `out` after replacing `whole` by the mention of each item named `name`,
/// the items taken in order.
pub open spec fn replaced_by_name(
    out: Seq<char>,
    whole: Seq<char>,
    name: Seq<char>,
    items: Seq<(Seq<char>, Seq<char>)>,
) -> Seq<char>
    decreases items.len(),
{
    if items.len() == 0 {
        out
    } else {
        let o = replaced_by_name(out, whole, name, items.drop_last());
        if items.last().0 == name {
            replace_all(o, whole, items.last().1)
        } else {
            o
        }
    }
}

/// `out` after each reference, in order, has been replaced by the mentions
/// of the items it names.
pub open spec fn replaced_refs(
    out: Seq<char>,
    refs: Seq<(Seq<char>, Seq<char>)>,
    items: Seq<(Seq<char>, Seq<char>)>,
) -> Seq<char>
    decreases refs.len(),
{
    if refs.len() == 0 {
        out
    } else {
        let o = replaced_refs(out, refs.drop_last(), items);
        replaced_by_name(o, refs.last().0, refs.last().1, items)
    }
}

fn replace_by_name(out: String, whole: &str, name: &str, items: &Vec<(String, String)>) -> (r: String)
    ensures
        r@ == replaced_by_name(out@, whole@, name@, pairs(items@)),
{
    let ghost iv = pairs(items@);
    let ghost start = out@;
    let mut out = out;
    let mut i: usize = 0;
    let wanted = String::from_str(name);
    assert(iv.take(0) =~= Seq::<(Seq<char>, Seq<char>)>::empty());
    while i < items.len()
        invariant
            i <= items.len(),
            iv == pairs(items@),
            wanted@ == name@,
            out@ == replaced_by_name(start, whole@, name@, iv.take(i as int)),
        decreases items.len() - i,
    {
        assert(iv.take(i + 1).drop_last() =~= iv.take(i as int));
        assert(iv.take(i + 1).last() == (items@[i as int].0@, items@[i as int].1@));
        if items[i].0 == wanted {
            out = replace_str(out.as_str(), whole, items[i].1.as_str());
        }
        i += 1;
    }
    assert(iv.take(iv.len() as int) =~= iv);
    out
}

fn replace_refs(input: &str, refs: &Vec<(String, String)>, items: &Vec<(String, String)>) -> (r: String)
    ensures
        r@ == replaced_refs(input@, pairs(refs@), pairs(items@)),
{
    let ghost rv = pairs(refs@);
    let mut out = String::from_str(input);
    let mut i: usize = 0;
    assert(rv.take(0) =~= Seq::<(Seq<char>, Seq<char>)>::empty());
    while i < refs.len()
        invariant
            i <= refs.len(),
            rv == pairs(refs@),
            out@ == replaced_refs(input@, rv.take(i as int), pairs(items@)),
        decreases refs.len() - i,
    {
        assert(rv.take(i + 1).drop_last() =~= rv.take(i as int));
        assert(rv.take(i + 1).last() == (refs@[i as int].0@, refs@[i as int].1@));
        out = replace_by_name(out, refs[i].0.as_str(), refs[i].1.as_str(), items);
        i += 1;
    }
    assert(rv.take(rv.len() as int) =~= rv);
    out
}

/// Each channel's name and mention.
pub open spec fn channel_items(v: Seq<Named>) -> Seq<(Seq<char>, Seq<char>)> {
    v.map_values(|c: Named| (c.name@, "<#"@ + decimal(c.id as nat) + ">"@))
}

/// Each role's name and mention.
pub open spec fn role_items(v: Seq<RoleInfo>) -> Seq<(Seq<char>, Seq<char>)> {
    v.map_values(|r: RoleInfo| (r.name@, "<@&"@ + decimal(r.id as nat) + ">"@))
}

/// Each emoji's name and mention.
pub open spec fn emoji_items(v: Seq<Named>) -> Seq<(Seq<char>, Seq<char>)> {
    v.map_values(|e: Named| (e.name@, "<:"@ + e.name@ + ":"@ + decimal(e.id as nat) + ">"@))
}

/// The names a member answers to, each with its mention: its nick, if it
/// has one, then its user name.
pub open spec fn member_items(v: Seq<MemberInfo>) -> Seq<(Seq<char>, Seq<char>)>
    decreases v.len(),
{
    if v.len() == 0 {
        seq![]
    } else {
        let m = v.last();
        let mention = "<@"@ + decimal(m.user_id as nat) + ">"@;
        member_items(v.drop_last()) + match m.nick {
            Some(n) => seq![(n@, mention), (m.user_name@, mention)],
            None => seq![(m.user_name@, mention)],
        }
    }
}

/// The emoji references not escaped with a backslash, as (match, name).
pub open spec fn unescaped(refs: Seq<(Seq<char>, Seq<char>, Seq<char>)>) -> Seq<(Seq<char>, Seq<char>)>
    decreases refs.len(),
{
    if refs.len() == 0 {
        seq![]
    } else {
        let r = unescaped(refs.drop_last());
        if refs.last().1 == "\\"@ {
            r
        } else {
            r.push((refs.last().0, refs.last().2))
        }
    }
}

fn channel_pairs(v: &Vec<Named>) -> (r: Vec<(String, String)>)
    ensures
        pairs(r@) == channel_items(v@),
{
    let mut r: Vec<(String, String)> = Vec::new();
    let mut i: usize = 0;
    while i < v.len()
        invariant
            i <= v.len(),
            pairs(r@) == channel_items(v@.take(i as int)),
        decreases v.len() - i,
    {
        let ghost before = pairs(r@);
        r.push((copy_string(&v[i].name), channel_mention(v[i].id)));
        assert(pairs(r@) =~= before.push((v@[i as int].name@, "<#"@ + decimal(v@[i as int].id as nat) + ">"@)));
        assert(channel_items(v@.take(i + 1)) =~= channel_items(v@.take(i as int)).push(
            (v@[i as int].name@, "<#"@ + decimal(v@[i as int].id as nat) + ">"@),
        ));
        i += 1;
    }
    assert(v@.take(v@.len() as int) =~= v@);
    r
}

fn role_pairs(v: &Vec<RoleInfo>) -> (r: Vec<(String, String)>)
    ensures
        pairs(r@) == role_items(v@),
{
    let mut r: Vec<(String, String)> = Vec::new();
    let mut i: usize = 0;
    while i < v.len()
        invariant
            i <= v.len(),
            pairs(r@) == role_items(v@.take(i as int)),
        decreases v.len() - i,
    {
        let ghost before = pairs(r@);
        r.push((copy_string(&v[i].name), role_mention(v[i].id)));
        assert(pairs(r@) =~= before.push((v@[i as int].name@, "<@&"@ + decimal(v@[i as int].id as nat) + ">"@)));
        assert(role_items(v@.take(i + 1)) =~= role_items(v@.take(i as int)).push(
            (v@[i as int].name@, "<@&"@ + decimal(v@[i as int].id as nat) + ">"@),
        ));
        i += 1;
    }
    assert(v@.take(v@.len() as int) =~= v@);
    r
}

fn emoji_pairs(v: &Vec<Named>) -> (r: Vec<(String, String)>)
    ensures
        pairs(r@) == emoji_items(v@),
{
    let mut r: Vec<(String, String)> = Vec::new();
    let mut i: usize = 0;
    while i < v.len()
        invariant
            i <= v.len(),
            pairs(r@) == emoji_items(v@.take(i as int)),
        decreases v.len() - i,
    {
        let ghost before = pairs(r@);
        let ghost e = v@[i as int];
        r.push((copy_string(&v[i].name), emoji_mention(v[i].name.as_str(), v[i].id)));
        assert(pairs(r@) =~= before.push((e.name@, "<:"@ + e.name@ + ":"@ + decimal(e.id as nat) + ">"@)));
        assert(emoji_items(v@.take(i + 1)) =~= emoji_items(v@.take(i as int)).push(
            (e.name@, "<:"@ + e.name@ + ":"@ + decimal(e.id as nat) + ">"@),
        ));
        i += 1;
    }
    assert(v@.take(v@.len() as int) =~= v@);
    r
}

fn member_pairs(v: &Vec<MemberInfo>) -> (r: Vec<(String, String)>)
    ensures
        pairs(r@) == member_items(v@),
{
    let mut r: Vec<(String, String)> = Vec::new();
    let mut i: usize = 0;
    assert(v@.take(0) =~= Seq::<MemberInfo>::empty());
    while i < v.len()
        invariant
            i <= v.len(),
            pairs(r@) == member_items(v@.take(i as int)),
        decreases v.len() - i,
    {
        let ghost before = pairs(r@);
        let ghost m = v@[i as int];
        assert(v@.take(i + 1).drop_last() =~= v@.take(i as int));
        assert(v@.take(i + 1).last() == m);
        let mention = user_mention(v[i].user_id);
        match &v[i].nick {
            Some(n) => {
                r.push((copy_string(n), copy_string(&mention)));
                r.push((copy_string(&v[i].user_name), mention));
                assert(pairs(r@) =~= before + seq![
                    (m.nick->Some_0@, "<@"@ + decimal(m.user_id as nat) + ">"@),
                    (m.user_name@, "<@"@ + decimal(m.user_id as nat) + ">"@),
                ]);
            },
            None => {
                r.push((copy_string(&v[i].user_name), mention));
                assert(pairs(r@) =~= before + seq![
                    (m.user_name@, "<@"@ + decimal(m.user_id as nat) + ">"@),
                ]);
            },
        }
        i += 1;
    }
    assert(v@.take(v@.len() as int) =~= v@);
    r
}

fn unescaped_refs(v: &Vec<(String, String, String)>) -> (r: Vec<(String, String)>)
    ensures
        pairs(r@) == unescaped(triples(v@)),
{
    let ghost tv = triples(v@);
    let mut r: Vec<(String, String)> = Vec::new();
    let mut i: usize = 0;
    let backslash = String::from_str("\\");
    assert(tv.take(0) =~= Seq::<(Seq<char>, Seq<char>, Seq<char>)>::empty());
    while i < v.len()
        invariant
            i <= v.len(),
            tv == triples(v@),
            backslash@ == "\\"@,
            pairs(r@) == unescaped(tv.take(i as int)),
        decreases v.len() - i,
    {
        let ghost before = pairs(r@);
        assert(tv.take(i + 1).drop_last() =~= tv.take(i as int));
        assert(tv.take(i + 1).last() == (v@[i as int].0@, v@[i as int].1@, v@[i as int].2@));
        if v[i].1 != backslash {
            r.push((copy_string(&v[i].0), copy_string(&v[i].2)));
            assert(pairs(r@) =~= before.push((v@[i as int].0@, v@[i as int].2@)));
        }
        i += 1;
    }
    assert(tv.take(tv.len() as int) =~= tv);
    r
}

/// What [`create_channels`] gives: each `#name` reference replaced by the
/// mentions of the channels of that name.
pub open spec fn channels_created(channels: Option<Seq<Named>>, input: Seq<char>) -> Seq<char> {
    match channels {
        Some(c) => replaced_refs(input, channel_refs_in(input), channel_items(c)),
        None => input,
    }
}

/// What [`create_users`] gives: each `@name#1234` reference replaced by the
/// mentions of the members answering to that name.
pub open spec fn users_created(members: Option<Seq<MemberInfo>>, input: Seq<char>) -> Seq<char> {
    match members {
        Some(m) => replaced_refs(input, user_refs_in(input), member_items(m)),
        None => input,
    }
}

/// What [`create_roles`] gives: each `@name` reference replaced by the
/// mentions of the roles of that name.
pub open spec fn roles_created(roles: Option<Seq<RoleInfo>>, input: Seq<char>) -> Seq<char> {
    match roles {
        Some(v) => replaced_refs(input, role_refs_in(input), role_items(v)),
        None => input,
    }
}

/// What [`create_emojis`] gives: each `:name:` reference not escaped by a
/// backslash replaced by the mentions of the emojis of that name.
pub open spec fn emojis_created(emojis: Option<Seq<Named>>, input: Seq<char>) -> Seq<char> {
    match emojis {
        Some(v) => replaced_refs(input, unescaped(emoji_refs_in(input)), emoji_items(v)),
        None => input,
    }
}

/// Turns `#name` into the mention of the guild's text channel of that name;
/// `channels` is `None` where the guild's channels are not known.
pub fn create_channels(channels: Option<&Vec<Named>>, input: &str) -> (r: String)
    ensures
        r@ == channels_created(
            match channels {
                Some(c) => Some(c@),
                None => None,
            },
            input@,
        ),
{
    match channels {
        Some(c) => {
            let refs = channel_refs(input);
            let items = channel_pairs(c);
            replace_refs(input, &refs, &items)
        },
        None => String::from_str(input),
    }
}

/// Turns `@name#1234` into the mention of the guild's member with that nick
/// or user name; `members` is `None` where the guild's members are not known.
pub fn create_users(members: Option<&Vec<MemberInfo>>, input: &str) -> (r: String)
    ensures
        r@ == users_created(
            match members {
                Some(m) => Some(m@),
                None => None,
            },
            input@,
        ),
{
    match members {
        Some(m) => {
            let refs = user_refs(input);
            let items = member_pairs(m);
            replace_refs(input, &refs, &items)
        },
        None => String::from_str(input),
    }
}

/// Turns `@name` into the mention of the guild's role of that name; `roles`
/// is `None` where the guild's roles are not known.
pub fn create_roles(roles: Option<&Vec<RoleInfo>>, input: &str) -> (r: String)
    ensures
        r@ == roles_created(
            match roles {
                Some(v) => Some(v@),
                None => None,
            },
            input@,
        ),
{
    match roles {
        Some(v) => {
            let refs = role_refs(input);
            let items = role_pairs(v);
            replace_refs(input, &refs, &items)
        },
        None => String::from_str(input),
    }
}

/// Turns `:name:` into the mention of the guild's emoji of that name,
/// leaving `\:name:` alone; `emojis` is `None` where the guild's emojis are
/// not known.
pub fn create_emojis(emojis: Option<&Vec<Named>>, input: &str) -> (r: String)
    ensures
        r@ == emojis_created(
            match emojis {
                Some(v) => Some(v@),
                None => None,
            },
            input@,
        ),
{
    match emojis {
        Some(v) => {
            let found = emoji_refs(input);
            let refs = unescaped_refs(&found);
            let items = emoji_pairs(v);
            replace_refs(input, &refs, &items)
        },
        None => String::from_str(input),
    }
}

/// A guild's channels, members, roles and emojis, where they are known.
pub struct GuildLists {
    pub channels: Option<Vec<Named>>,
    pub members: Option<Vec<MemberInfo>>,
    pub roles: Option<Vec<RoleInfo>>,
    pub emojis: Option<Vec<Named>>,
}

/// The text after the channel step.
pub open spec fn after_channels(lists: &GuildLists, input: Seq<char>) -> Seq<char> {
    match &lists.channels {
        Some(c) => replaced_refs(input, channel_refs_in(input), channel_items(c@)),
        None => input,
    }
}

/// The text after the user step.
pub open spec fn after_users(lists: &GuildLists, input: Seq<char>) -> Seq<char> {
    match &lists.members {
        Some(m) => replaced_refs(input, user_refs_in(input), member_items(m@)),
        None => input,
    }
}

/// The text after the role step.
pub open spec fn after_roles(lists: &GuildLists, input: Seq<char>) -> Seq<char> {
    match &lists.roles {
        Some(v) => replaced_refs(input, role_refs_in(input), role_items(v@)),
        None => input,
    }
}

/// The text after the emoji step.
pub open spec fn after_emojis(lists: &GuildLists, input: Seq<char>) -> Seq<char> {
    match &lists.emojis {
        Some(v) => replaced_refs(input, unescaped(emoji_refs_in(input)), emoji_items(v@)),
        None => input,
    }
}

/// Writes the mentions of an outgoing message the way Discord reads them:
/// channels, then users, then roles, then emojis. `lists` is `None` outside
/// a guild, where the text is sent as it is.
pub fn create_mentions(lists: Option<&GuildLists>, input: &str) -> (r: String)
    ensures
        r@ == (match lists {
            Some(l) => after_emojis(l, after_roles(l, after_users(l, after_channels(l, input@)))),
            None => input@,
        }),
{
    match lists {
        Some(l) => {
            let a = create_channels(l.channels.as_ref(), input);
            let b = create_users(l.members.as_ref(), a.as_str());
            let c = create_roles(l.roles.as_ref(), b.as_str());
            create_emojis(l.emojis.as_ref(), c.as_str())
        },
        None => String::from_str(input),
    }
}

/// The known lists of a guild, as sequences.
pub open spec fn known<T>(v: Option<Vec<T>>) -> Option<Seq<T>> {
    match v {
        Some(x) => Some(x@),
        None => None,
    }
}

/// Writing the mentions of a message in a guild does what the four steps do,
/// one after the other: [`create_channels`], [`create_users`],
/// [`create_roles`], then [`create_emojis`], each with the guild's list.
pub proof fn law_mentions_are_the_four_steps(l: &GuildLists, input: Seq<char>)
    ensures
        after_emojis(l, after_roles(l, after_users(l, after_channels(l, input)))) == emojis_created(
            known(l.emojis),
            roles_created(
                known(l.roles),
                users_created(known(l.members), channels_created(known(l.channels), input)),
            ),
        ),
{
}

/// Replacing by name, where no item has the name, changes nothing.
proof fn lemma_replaced_by_no_name(
    out: Seq<char>,
    whole: Seq<char>,
    name: Seq<char>,
    items: Seq<(Seq<char>, Seq<char>)>,
)
    requires
        forall|k: int| 0 <= k < items.len() ==> items[k].0 != name,
    ensures
        replaced_by_name(out, whole, name, items) == out,
    decreases items.len(),
{
    if items.len() > 0 {
        assert(items.last() == items[items.len() - 1]);
        lemma_replaced_by_no_name(out, whole, name, items.drop_last());
    }
}

/// Replacing by name, where exactly item `j` has the name, replaces by its
/// mention.
proof fn lemma_replaced_by_one_name(
    out: Seq<char>,
    whole: Seq<char>,
    name: Seq<char>,
    items: Seq<(Seq<char>, Seq<char>)>,
    j: int,
)
    requires
        0 <= j < items.len(),
        forall|k: int| 0 <= k < items.len() ==> (items[k].0 == name <==> k == j),
    ensures
        replaced_by_name(out, whole, name, items) == replace_all(out, whole, items[j].1),
    decreases items.len(),
{
    let last = items.len() - 1;
    assert(items.last() == items[last]);
    if j == last {
        lemma_replaced_by_no_name(out, whole, name, items.drop_last());
    } else {
        lemma_replaced_by_one_name(out, whole, name, items.drop_last(), j);
    }
}

/// A known role written `@name` becomes its mention: where the only role
/// reference in a text names exactly one of the guild's roles, the role step
/// replaces every occurrence of the reference by `<@&id>` of that role.
pub proof fn law_known_role_becomes_mention(
    roles: Seq<RoleInfo>,
    input: Seq<char>,
    whole: Seq<char>,
    name: Seq<char>,
    j: int,
)
    requires
        role_refs_in(input) == seq![(whole, name)],
        0 <= j < roles.len(),
        forall|k: int| 0 <= k < roles.len() ==> (roles[k].name@ == name <==> k == j),
    ensures
        roles_created(Some(roles), input) == replace_all(
            input,
            whole,
            "<@&"@ + decimal(roles[j].id as nat) + ">"@,
        ),
{
    let items = role_items(roles);
    let refs = seq![(whole, name)];
    assert(refs.drop_last() =~= Seq::<(Seq<char>, Seq<char>)>::empty());
    assert forall|k: int| 0 <= k < items.len() implies (items[k].0 == name <==> k == j) by {
        assert(items[k] == (roles[k].name@, "<@&"@ + decimal(roles[k].id as nat) + ">"@));
    }
    lemma_replaced_by_one_name(input, whole, name, items, j);
    assert(replaced_refs(input, refs.drop_last(), items) == input);
    assert(refs.last() == (whole, name));
    assert(replaced_refs(input, refs, items) == replaced_by_name(input, whole, name, items));
}

} // verus!
