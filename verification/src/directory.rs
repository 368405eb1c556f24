//! What the plugin knows of a Discord session's roles, channels, members,
//! users and emojis, as plain values, and what it derives from them: member
//! colours, highest roles, mention texts and user tags.
use crate::style::StyleView;
use crate::style::ColorTable;
use crate::styled_string::{built, text_ops, OpView, StyledString};
use crate::text::{copy_string, push_char, push_str};
use crate::utils::{colorize_string, colorized, decimal, palette_index, u64_to_string, Color};
use vstd::prelude::*;

verus! {

/// A role of a guild.
pub struct RoleInfo {
    pub id: u64,
    pub name: String,
    pub color: u32,
    pub position: i64,
}

/// The mathematical value of a [`RoleInfo`].
pub struct RoleInfoView {
    pub id: u64,
    pub name: Seq<char>,
    pub color: u32,
    pub position: i64,
}

impl View for RoleInfo {
    type V = RoleInfoView;

    open spec fn view(&self) -> RoleInfoView {
        RoleInfoView { id: self.id, name: self.name@, color: self.color, position: self.position }
    }
}

impl RoleInfo {
    /// A copy of this role.
    pub fn duplicate(&self) -> (r: RoleInfo)
        ensures
            r@ == self@,
    {
        RoleInfo { id: self.id, name: copy_string(&self.name), color: self.color, position: self.position }
    }
}

/// A member of a guild.
pub struct MemberInfo {
    pub guild_id: u64,
    pub user_id: u64,
    pub user_name: String,
    pub nick: Option<String>,
    pub roles: Vec<u64>,
}

/// The mathematical value of a [`MemberInfo`].
pub struct MemberInfoView {
    pub guild_id: u64,
    pub user_id: u64,
    pub user_name: Seq<char>,
    pub nick: Option<Seq<char>>,
    pub roles: Seq<u64>,
}

impl View for MemberInfo {
    type V = MemberInfoView;

    open spec fn view(&self) -> MemberInfoView {
        MemberInfoView {
            guild_id: self.guild_id,
            user_id: self.user_id,
            user_name: self.user_name@,
            nick: match &self.nick {
                Some(n) => Some(n@),
                None => None,
            },
            roles: self.roles@,
        }
    }
}

/// A user, with the colour weechat gives its nick, where it gives one.
pub struct UserInfo {
    pub id: u64,
    pub name: String,
    pub discriminator: String,
    pub nick_color: Option<String>,
}

/// A named thing with an id: a channel or an emoji.
pub struct Named {
    pub id: u64,
    pub name: String,
}

/// Everything the plugin has cached about the session.
pub struct Directory {
    pub roles: Vec<RoleInfo>,
    pub guild_channels: Vec<Named>,
    pub private_channels: Vec<Named>,
    pub groups: Vec<Named>,
    pub members: Vec<MemberInfo>,
    pub users: Vec<UserInfo>,
    pub emojis: Vec<Named>,
}

/// The first role with id `id`.
pub open spec fn role_in(roles: Seq<RoleInfo>, id: u64) -> Option<RoleInfoView>
    decreases roles.len(),
{
    if roles.len() == 0 {
        None
    } else if roles[0].id == id {
        Some(roles[0]@)
    } else {
        role_in(roles.drop_first(), id)
    }
}

/// The name of the first entry with id `id`.
pub open spec fn name_in(v: Seq<Named>, id: u64) -> Option<Seq<char>>
    decreases v.len(),
{
    if v.len() == 0 {
        None
    } else if v[0].id == id {
        Some(v[0].name@)
    } else {
        name_in(v.drop_first(), id)
    }
}

/// The first member of guild `guild` with user id `user`.
pub open spec fn member_in(v: Seq<MemberInfo>, guild: u64, user: u64) -> Option<MemberInfoView>
    decreases v.len(),
{
    if v.len() == 0 {
        None
    } else if v[0].guild_id == guild && v[0].user_id == user {
        Some(v[0]@)
    } else {
        member_in(v.drop_first(), guild, user)
    }
}

/// The name and nick colour of the first user with id `id`.
pub open spec fn user_in(v: Seq<UserInfo>, id: u64) -> Option<(Seq<char>, Option<Seq<char>>)>
    decreases v.len(),
{
    if v.len() == 0 {
        None
    } else if v[0].id == id {
        Some(
            (
                v[0].name@,
                match &v[0].nick_color {
                    Some(c) => Some(c@),
                    None => None,
                },
            ),
        )
    } else {
        user_in(v.drop_first(), id)
    }
}

/// The roles of `ids` that the directory knows, in the member's order.
pub open spec fn known_roles(roles: Seq<RoleInfo>, ids: Seq<u64>) -> Seq<RoleInfoView>
    decreases ids.len(),
{
    if ids.len() == 0 {
        seq![]
    } else {
        let r = known_roles(roles, ids.drop_last());
        match role_in(roles, ids.last()) {
            Some(x) => r.push(x),
            None => r,
        }
    }
}

/// `a` comes before `b` when roles are sorted by position, highest first,
/// then by id, highest first.
pub open spec fn shown_before(a: RoleInfoView, b: RoleInfoView) -> bool {
    a.position > b.position || (a.position == b.position && a.id > b.id)
}

/// The coloured role that comes first in that order.
pub open spec fn best_colored(rs: Seq<RoleInfoView>) -> Option<RoleInfoView>
    decreases rs.len(),
{
    if rs.len() == 0 {
        None
    } else {
        let rest = best_colored(rs.drop_last());
        let r = rs.last();
        if r.color == 0 {
            rest
        } else {
            match rest {
                None => Some(r),
                Some(b) => if shown_before(r, b) {
                    Some(r)
                } else {
                    Some(b)
                },
            }
        }
    }
}

/// The role a member is listed under: the highest position, and among
/// equal positions the lowest id; a later one replaces an equal one.
pub open spec fn highest_role(rs: Seq<RoleInfoView>) -> Option<RoleInfoView>
    decreases rs.len(),
{
    if rs.len() == 0 {
        None
    } else {
        let r = rs.last();
        match highest_role(rs.drop_last()) {
            None => Some(r),
            Some(h) => if r.position < h.position || (r.position == h.position && r.id > h.id) {
                Some(h)
            } else {
                Some(r)
            },
        }
    }
}

impl Directory {
    /// A directory that knows nothing.
    pub fn new() -> (d: Directory)
        ensures
            d.roles@ == Seq::<RoleInfo>::empty(),
            d.guild_channels@ == Seq::<Named>::empty(),
            d.private_channels@ == Seq::<Named>::empty(),
            d.groups@ == Seq::<Named>::empty(),
            d.members@ == Seq::<MemberInfo>::empty(),
            d.users@ == Seq::<UserInfo>::empty(),
            d.emojis@ == Seq::<Named>::empty(),
    {
        Directory {
            roles: Vec::new(),
            guild_channels: Vec::new(),
            private_channels: Vec::new(),
            groups: Vec::new(),
            members: Vec::new(),
            users: Vec::new(),
            emojis: Vec::new(),
        }
    }

    /// The role with id `id`.
    pub fn role(&self, id: u64) -> (r: Option<&RoleInfo>)
        ensures
            match role_in(self.roles@, id) {
                Some(x) => r is Some && r->Some_0@ == x,
                None => r is None,
            },
    {
        let mut i: usize = 0;
        assert(self.roles@.skip(0) =~= self.roles@);
        while i < self.roles.len()
            invariant
                i <= self.roles@.len(),
                role_in(self.roles@.skip(i as int), id) == role_in(self.roles@, id),
            decreases self.roles.len() - i,
        {
            assert(self.roles@.skip(i as int)[0] == self.roles@[i as int]);
            if self.roles[i].id == id {
                return Some(&self.roles[i]);
            }
            assert(self.roles@.skip(i as int).drop_first() =~= self.roles@.skip(i + 1));
            i += 1;
        }
        None
    }

    /// The member of guild `guild` with user id `user`.
    pub fn member(&self, guild: u64, user: u64) -> (r: Option<&MemberInfo>)
        ensures
            match member_in(self.members@, guild, user) {
                Some(x) => r is Some && r->Some_0@ == x,
                None => r is None,
            },
    {
        let mut i: usize = 0;
        assert(self.members@.skip(0) =~= self.members@);
        while i < self.members.len()
            invariant
                i <= self.members@.len(),
                member_in(self.members@.skip(i as int), guild, user) == member_in(
                    self.members@,
                    guild,
                    user,
                ),
            decreases self.members.len() - i,
        {
            assert(self.members@.skip(i as int)[0] == self.members@[i as int]);
            if self.members[i].guild_id == guild && self.members[i].user_id == user {
                return Some(&self.members[i]);
            }
            assert(self.members@.skip(i as int).drop_first() =~= self.members@.skip(i + 1));
            i += 1;
        }
        None
    }

    /// The name and nick colour of user `id`.
    pub fn user(&self, id: u64) -> (r: Option<(String, Option<String>)>)
        ensures
            match user_in(self.users@, id) {
                Some((n, c)) => r is Some && r->Some_0.0@ == n && match c {
                    Some(cc) => r->Some_0.1 is Some && r->Some_0.1->Some_0@ == cc,
                    None => r->Some_0.1 is None,
                },
                None => r is None,
            },
    {
        let mut i: usize = 0;
        assert(self.users@.skip(0) =~= self.users@);
        while i < self.users.len()
            invariant
                i <= self.users@.len(),
                user_in(self.users@.skip(i as int), id) == user_in(self.users@, id),
            decreases self.users.len() - i,
        {
            assert(self.users@.skip(i as int)[0] == self.users@[i as int]);
            if self.users[i].id == id {
                let u = &self.users[i];
                let c = match &u.nick_color {
                    Some(c) => Some(copy_string(c)),
                    None => None,
                };
                return Some((copy_string(&u.name), c));
            }
            assert(self.users@.skip(i as int).drop_first() =~= self.users@.skip(i + 1));
            i += 1;
        }
        None
    }

    /// The roles of a member that the directory knows, in the member's order.
    pub fn member_roles(&self, member: &MemberInfo) -> (r: Vec<RoleInfo>)
        ensures
            r@.map_values(|x: RoleInfo| x@) == known_roles(self.roles@, member.roles@),
    {
        let mut r: Vec<RoleInfo> = Vec::new();
        let mut i: usize = 0;
        assert(member.roles@.take(0) =~= Seq::<u64>::empty());
        assert(r@.map_values(|x: RoleInfo| x@) =~= Seq::<RoleInfoView>::empty());
        while i < member.roles.len()
            invariant
                i <= member.roles@.len(),
                r@.map_values(|x: RoleInfo| x@) == known_roles(self.roles@, member.roles@.take(i as int)),
            decreases member.roles.len() - i,
        {
            assert(member.roles@.take(i + 1).drop_last() =~= member.roles@.take(i as int));
            let ghost before = r@.map_values(|x: RoleInfo| x@);
            match self.role(member.roles[i]) {
                Some(role) => {
                    r.push(role.duplicate());
                    assert(r@.map_values(|x: RoleInfo| x@) =~= before.push(role@));
                },
                None => {},
            }
            i += 1;
        }
        assert(member.roles@.take(member.roles@.len() as int) =~= member.roles@);
        r
    }
}

/// The coloured role chosen among roles is one of them, is coloured, and
/// stands at least as high as every other coloured one; none is chosen
/// exactly when no role is coloured.
pub proof fn law_best_colored_is_highest(rs: Seq<RoleInfoView>)
    ensures
        match best_colored(rs) {
            Some(b) => rs.contains(b) && b.color != 0 && forall|k: int|
                0 <= k < rs.len() && #[trigger] rs[k].color != 0 ==> rs[k].position <= b.position,
            None => forall|k: int| 0 <= k < rs.len() ==> #[trigger] rs[k].color == 0,
        },
    decreases rs.len(),
{
    if rs.len() > 0 {
        let init = rs.drop_last();
        law_best_colored_is_highest(init);
        assert forall|k: int| 0 <= k < init.len() implies #[trigger] init[k] == rs[k] by {}
        let r = rs.last();
        assert(rs[rs.len() - 1] == r);
        match best_colored(init) {
            Some(b) => {
                let j = choose|j: int| 0 <= j < init.len() && init[j] == b;
                assert(rs[j] == b);
            },
            None => {},
        }
        match best_colored(rs) {
            Some(b) => {
                assert forall|k: int| 0 <= k < rs.len() && #[trigger] rs[k].color != 0 implies rs[k].position
                    <= b.position by {
                    if k < rs.len() - 1 {
                        assert(init[k] == rs[k]);
                    }
                }
            },
            None => {
                assert forall|k: int| 0 <= k < rs.len() implies #[trigger] rs[k].color == 0 by {
                    if k < rs.len() - 1 {
                        assert(init[k] == rs[k]);
                    }
                }
            },
        }
    }
}

/// The colour of a member: that of its highest coloured role.
pub fn member_color(dir: &Directory, member: &MemberInfo) -> (c: Option<Color>)
    ensures
        match best_colored(known_roles(dir.roles@, member.roles@)) {
            Some(r) => c is Some && c->Some_0.0 == r.color,
            None => c is None,
        },
{
    let roles = dir.member_roles(member);
    let ghost rv = roles@.map_values(|x: RoleInfo| x@);
    let mut best: Option<usize> = None;
    let mut i: usize = 0;
    assert(rv.take(0) =~= Seq::<RoleInfoView>::empty());
    while i < roles.len()
        invariant
            i <= roles@.len(),
            rv == roles@.map_values(|x: RoleInfo| x@),
            match best_colored(rv.take(i as int)) {
                Some(b) => best is Some && best->Some_0 < i && rv[best->Some_0 as int] == b,
                None => best is None,
            },
        decreases roles.len() - i,
    {
        assert(rv.take(i + 1).drop_last() =~= rv.take(i as int));
        assert(rv.take(i + 1).last() == roles@[i as int]@);
        let r = &roles[i];
        if r.color != 0 {
            match best {
                None => {
                    best = Some(i);
                },
                Some(b) => {
                    let cur = &roles[b];
                    if r.position > cur.position || (r.position == cur.position && r.id > cur.id) {
                        best = Some(i);
                    }
                },
            }
        }
        i += 1;
    }
    assert(rv.take(rv.len() as int) =~= rv);
    match best {
        Some(b) => Some(Color::new(roles[b].color)),
        None => None,
    }
}

/// The role a member is listed under.
pub fn highest_role_info(dir: &Directory, member: &MemberInfo) -> (r: Option<RoleInfo>)
    ensures
        match highest_role(known_roles(dir.roles@, member.roles@)) {
            Some(h) => r is Some && r->Some_0@ == h,
            None => r is None,
        },
{
    let roles = dir.member_roles(member);
    let ghost rv = roles@.map_values(|x: RoleInfo| x@);
    let mut best: Option<usize> = None;
    let mut i: usize = 0;
    assert(rv.take(0) =~= Seq::<RoleInfoView>::empty());
    while i < roles.len()
        invariant
            i <= roles@.len(),
            rv == roles@.map_values(|x: RoleInfo| x@),
            match highest_role(rv.take(i as int)) {
                Some(h) => best is Some && best->Some_0 < i && rv[best->Some_0 as int] == h,
                None => best is None,
            },
        decreases roles.len() - i,
    {
        assert(rv.take(i + 1).drop_last() =~= rv.take(i as int));
        assert(rv.take(i + 1).last() == roles@[i as int]@);
        let r = &roles[i];
        match best {
            None => {
                best = Some(i);
            },
            Some(b) => {
                let h = &roles[b];
                if !(r.position < h.position || (r.position == h.position && r.id > h.id)) {
                    best = Some(i);
                }
            },
        }
        i += 1;
    }
    assert(rv.take(rv.len() as int) =~= rv);
    match best {
        Some(b) => Some(roles[b].duplicate()),
        None => None,
    }
}

/// The colour name of a Discord colour: its weechat palette index.
pub open spec fn color_name(c: u32) -> Seq<char> {
    decimal(
        palette_index(
            ((c / 65536) % 256) as int,
            ((c / 256) % 256) as int,
            (c % 256) as int,
        ) as nat,
    )
}

/// What a member is shown as: its nick in its colour, or, without a
/// coloured role, its user name; `@` in front where `at`.
pub open spec fn member_text(color: Option<u32>, member: MemberInfoView, at: bool) -> Seq<OpView> {
    let prefix = if at {
        "@"@
    } else {
        seq![]
    };
    let nick = match member.nick {
        Some(n) => n,
        None => member.user_name,
    };
    match color {
        Some(c) => colorized(prefix + nick, color_name(c)),
        None => text_ops(prefix + member.user_name),
    }
}

/// The weechat colour name for a Discord colour.
pub fn color_code(c: Color) -> (s: String)
    ensures
        s@ == color_name(c.0),
{
    let n = c.as_8bit();
    u64_to_string(n as u64)
}

/// A member's name, coloured by its roles.
pub fn colorize_discord_member(dir: &Directory, member: &MemberInfo, at: bool) -> (s: StyledString)
    ensures
        s@ == member_text(
            match best_colored(known_roles(dir.roles@, member.roles@)) {
                Some(r) => Some(r.color),
                None => None,
            },
            member@,
            at,
        ),
{
    let color = member_color(dir, member);
    let mut text = if at {
        String::from_str("@")
    } else {
        String::new()
    };
    proof {
        reveal_strlit("@");
    }
    match color {
        Some(c) => {
            match &member.nick {
                Some(n) => push_str(&mut text, n.as_str()),
                None => push_str(&mut text, member.user_name.as_str()),
            }
            let code = color_code(c);
            colorize_string(text.as_str(), code.as_str())
        },
        None => {
            push_str(&mut text, member.user_name.as_str());
            StyledString::from_text(text.as_str())
        },
    }
}

/// The nick the user has in a guild: its member name in its colour, or,
/// where it is no member, its user name.
pub open spec fn own_nick(t: Seq<(Seq<char>, Seq<char>)>, dir: &Directory, guild: u64, user: &UserInfo) -> Seq<char> {
    match member_in(dir.members@, guild, user.id) {
        Some(m) => built(
            t,
            member_text(
                match best_colored(known_roles(dir.roles@, m.roles)) {
                    Some(r) => Some(r.color),
                    None => None,
                },
                m,
                false,
            ),
        ),
        None => user.name@,
    }
}

/// The user's nick in a guild, for the guild's buffers.
pub fn current_user_nick(table: &ColorTable, dir: &Directory, guild_id: u64, user: &UserInfo) -> (s: String)
    ensures
        s@ == own_nick(table@, dir, guild_id, user),
{
    match dir.member(guild_id, user.id) {
        Some(m) => {
            let styled = colorize_discord_member(dir, m, false);
            proof {
                crate::mentions::lemma_member_text_balanced(styled@);
            }
            styled.build_with(table)
        },
        None => copy_string(&user.name),
    }
}

/// `name#discriminator`, the discriminator padded to four characters
/// (`format!("{}#{:04}", ..)` on a string pads it with spaces).
pub open spec fn tag_of(name: Seq<char>, discriminator: Seq<char>) -> Seq<char> {
    name + "#"@ + discriminator + Seq::new(
        if discriminator.len() < 4 {
            (4 - discriminator.len()) as nat
        } else {
            0
        },
        |i: int| ' ',
    )
}

impl UserInfo {
    /// The user's tag.
    pub fn tag(&self) -> (s: String)
        ensures
            s@ == tag_of(self.name@, self.discriminator@),
    {
        let mut s = copy_string(&self.name);
        push_char(&mut s, '#');
        push_str(&mut s, self.discriminator.as_str());
        let n = crate::text::to_chars(self.discriminator.as_str()).len();
        let mut k = n;
        proof {
            reveal_strlit("#");
        }
        let ghost base = s@;
        while k < 4
            invariant
                n <= k,
                k <= 4 || k == n,
                n == self.discriminator@.len(),
                base == self.name@ + "#"@ + self.discriminator@,
                s@ == base + Seq::new((k - n) as nat, |i: int| ' '),
            decreases 4 - k,
        {
            push_char(&mut s, ' ');
            assert(s@ =~= base + Seq::new((k + 1 - n) as nat, |i: int| ' '));
            k += 1;
        }
        assert(s@ =~= tag_of(self.name@, self.discriminator@));
        s
    }
}

/// `<#id>`: how a channel is mentioned.
pub fn channel_mention(id: u64) -> (s: String)
    ensures
        s@ == "<#"@ + decimal(id as nat) + ">"@,
{
    let mut s = String::from_str("<#");
    push_str(&mut s, u64_to_string(id).as_str());
    push_str(&mut s, ">");
    s
}

/// `<@id>`: how a user is mentioned.
pub fn user_mention(id: u64) -> (s: String)
    ensures
        s@ == "<@"@ + decimal(id as nat) + ">"@,
{
    let mut s = String::from_str("<@");
    push_str(&mut s, u64_to_string(id).as_str());
    push_str(&mut s, ">");
    s
}

/// `<@&id>`: how a role is mentioned.
pub fn role_mention(id: u64) -> (s: String)
    ensures
        s@ == "<@&"@ + decimal(id as nat) + ">"@,
{
    let mut s = String::from_str("<@&");
    push_str(&mut s, u64_to_string(id).as_str());
    push_str(&mut s, ">");
    s
}

/// `<:name:id>`: how a custom emoji is mentioned.
pub fn emoji_mention(name: &str, id: u64) -> (s: String)
    ensures
        s@ == "<:"@ + name@ + ":"@ + decimal(id as nat) + ">"@,
{
    let mut s = String::from_str("<:");
    push_str(&mut s, name);
    push_str(&mut s, ":");
    push_str(&mut s, u64_to_string(id).as_str());
    push_str(&mut s, ">");
    s
}

} // verus!
