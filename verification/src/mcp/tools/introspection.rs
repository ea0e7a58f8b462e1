//! What there is to be seen of Discord: guilds, channels, users, roles and emojis.

use vstd::prelude::*;
use crate::json::{self, Json, JsonView, Object};
use crate::mcp::tools::messaging;
use crate::text;

verus! {

/// A string that may not be there, as JSON.
pub open spec fn opt_view(s: Option<String>) -> JsonView {
    match s {
        Some(t) => JsonView::Text(t@),
        None => JsonView::Null,
    }
}

fn opt_json(s: &Option<String>) -> (r: Json)
    ensures
        r@ == opt_view(*s),
{
    broadcast use json::lemma_json_view;

    match s {
        Some(t) => Json::string(t.as_str()),
        None => Json::Null,
    }
}

/// A guild.
#[derive(Debug, PartialEq, Eq)]
pub struct GuildInfo {
    pub id: u64,
    pub name: String,
}

/// A guild as JSON.
pub open spec fn guild_view(x: GuildInfo) -> JsonView {
    JsonView::Object(
        seq![
            ("id"@, json::id_view(x.id)),
            ("name"@, JsonView::Text(x.name@)),
        ],
    )
}

/// A guild as JSON.
pub fn guild_json(x: &GuildInfo) -> (r: Json)
    ensures
        r@ == guild_view(*x),
{
    broadcast use json::lemma_json_view;

    let mut out: Object = Object::new();
    out.put("id", Json::id(x.id));
    out.put("name", Json::string(x.name.as_str()));
    assert(out.fields() =~= guild_view(*x)->Object_0);
    out.done()
}

/// What the guilds are answered with.
pub open spec fn guilds_view(list: Seq<GuildInfo>) -> JsonView {
    JsonView::Object(
        seq![("guilds"@, JsonView::Array(list.map_values(|x: GuildInfo| guild_view(x))))],
    )
}

/// What the guilds are answered with.
pub fn list_guilds(list: &Vec<GuildInfo>) -> (r: Json)
    ensures
        r@ == guilds_view(list@),
{
    broadcast use json::lemma_json_view;

    let ghost shown = |x: GuildInfo| guild_view(x);
    let mut items: Vec<Json> = Vec::new();
    let mut i: usize = 0;
    while i < list.len()
        invariant
            i <= list@.len(),
            items@.len() == i,
            shown == (|x: GuildInfo| guild_view(x)),
            forall|k: int| 0 <= k < i ==> (#[trigger] items@[k])@ == shown(list@[k]),
        decreases list@.len() - i,
    {
        items.push(guild_json(&list[i]));
        i = i + 1;
    }
    assert(json::json_views(items@) =~= list@.map_values(shown));
    let mut out: Object = Object::new();
    out.put("guilds", Json::Array(items));
    assert(out.fields() =~= guilds_view(list@)->Object_0);
    out.done()
}

/// A channel, with the word for its kind.
#[derive(Debug, PartialEq, Eq)]
pub struct ChannelInfo {
    pub id: u64,
    pub name: String,
    pub kind: String,
}

/// A channel as JSON.
pub open spec fn channel_view(x: ChannelInfo) -> JsonView {
    JsonView::Object(
        seq![
            ("id"@, json::id_view(x.id)),
            ("name"@, JsonView::Text(x.name@)),
            ("kind"@, JsonView::Text(x.kind@)),
        ],
    )
}

/// A channel as JSON.
pub fn channel_json(x: &ChannelInfo) -> (r: Json)
    ensures
        r@ == channel_view(*x),
{
    broadcast use json::lemma_json_view;

    let mut out: Object = Object::new();
    out.put("id", Json::id(x.id));
    out.put("name", Json::string(x.name.as_str()));
    out.put("kind", Json::string(x.kind.as_str()));
    assert(out.fields() =~= channel_view(*x)->Object_0);
    out.done()
}

/// What the channels of a guild are answered with.
pub open spec fn channels_view(list: Seq<ChannelInfo>) -> JsonView {
    JsonView::Object(
        seq![("channels"@, JsonView::Array(list.map_values(|x: ChannelInfo| channel_view(x))))],
    )
}

/// What the channels of a guild are answered with.
pub fn list_channels(list: &Vec<ChannelInfo>) -> (r: Json)
    ensures
        r@ == channels_view(list@),
{
    broadcast use json::lemma_json_view;

    let ghost shown = |x: ChannelInfo| channel_view(x);
    let mut items: Vec<Json> = Vec::new();
    let mut i: usize = 0;
    while i < list.len()
        invariant
            i <= list@.len(),
            items@.len() == i,
            shown == (|x: ChannelInfo| channel_view(x)),
            forall|k: int| 0 <= k < i ==> (#[trigger] items@[k])@ == shown(list@[k]),
        decreases list@.len() - i,
    {
        items.push(channel_json(&list[i]));
        i = i + 1;
    }
    assert(json::json_views(items@) =~= list@.map_values(shown));
    let mut out: Object = Object::new();
    out.put("channels", Json::Array(items));
    assert(out.fields() =~= channels_view(list@)->Object_0);
    out.done()
}

/// A channel on its own, of which only some kinds are known.
#[derive(Debug, PartialEq, Eq)]
pub enum Channel {
    Guild { id: u64, name: String },
    Private { id: u64, name: String },
    Other { id: u64 },
}

/// The word for a channel's kind.
pub open spec fn channel_kind(channel: Channel) -> Seq<char> {
    match channel {
        Channel::Guild { .. } => "guild"@,
        Channel::Private { .. } => "private"@,
        Channel::Other { .. } => "unknown"@,
    }
}

/// The name of a channel, where it has one.
pub open spec fn channel_label(channel: Channel) -> Seq<char> {
    match channel {
        Channel::Guild { name, .. } => name@,
        Channel::Private { name, .. } => name@,
        Channel::Other { .. } => "(unknown)"@,
    }
}

/// The word for a channel's kind.
pub fn channel_kind_str(channel: &Channel) -> (r: &'static str)
    ensures
        r@ == channel_kind(*channel),
{
    match channel {
        Channel::Guild { .. } => "guild",
        Channel::Private { .. } => "private",
        Channel::Other { .. } => "unknown",
    }
}

/// The name of a channel, where it has one.
pub fn channel_name(channel: &Channel) -> (r: String)
    ensures
        r@ == channel_label(*channel),
{
    match channel {
        Channel::Guild { name, .. } => name.clone(),
        Channel::Private { name, .. } => name.clone(),
        Channel::Other { .. } => "(unknown)".to_owned(),
    }
}

/// The id of a channel.
pub open spec fn channel_number(channel: Channel) -> u64 {
    match channel {
        Channel::Guild { id, .. } => id,
        Channel::Private { id, .. } => id,
        Channel::Other { id } => id,
    }
}

/// What a channel is answered with.
pub open spec fn lone_channel_view(channel: Channel) -> JsonView {
    JsonView::Object(
        seq![
            ("id"@, json::id_view(channel_number(channel))),
            ("name"@, JsonView::Text(channel_label(channel))),
            ("kind"@, JsonView::Text(channel_kind(channel))),
        ],
    )
}

/// What a channel is answered with.
pub fn get_channel(channel: &Channel) -> (r: Json)
    ensures
        r@ == lone_channel_view(*channel),
{
    broadcast use json::lemma_json_view;

    let number: u64 = match channel {
        Channel::Guild { id, .. } => *id,
        Channel::Private { id, .. } => *id,
        Channel::Other { id } => *id,
    };
    let mut out: Object = Object::new();
    out.put("id", Json::id(number));
    out.put("name", Json::Text(channel_name(channel)));
    out.put("kind", Json::string(channel_kind_str(channel)));
    assert(out.fields() =~= lone_channel_view(*channel)->Object_0);
    out.done()
}

/// A user.
#[derive(Debug, PartialEq, Eq)]
pub struct UserInfo {
    pub id: u64,
    pub name: String,
    pub discriminator: Option<String>,
    pub bot: bool,
}

/// A user as JSON.
pub open spec fn user_view(x: UserInfo) -> JsonView {
    JsonView::Object(
        seq![
            ("id"@, json::id_view(x.id)),
            ("name"@, JsonView::Text(x.name@)),
            ("discriminator"@, opt_view(x.discriminator)),
            ("bot"@, JsonView::Bool(x.bot)),
        ],
    )
}

/// A user as JSON.
pub fn user_json(x: &UserInfo) -> (r: Json)
    ensures
        r@ == user_view(*x),
{
    broadcast use json::lemma_json_view;

    let mut out: Object = Object::new();
    out.put("id", Json::id(x.id));
    out.put("name", Json::string(x.name.as_str()));
    out.put("discriminator", opt_json(&x.discriminator));
    out.put("bot", Json::Bool(x.bot));
    assert(out.fields() =~= user_view(*x)->Object_0);
    out.done()
}

/// A member of a guild. The time of joining is in the configured time zone.
#[derive(Debug, PartialEq, Eq)]
pub struct MemberInfo {
    pub user_id: u64,
    pub username: String,
    pub nick: Option<String>,
    pub roles: Vec<u64>,
    pub joined_at: Option<String>,
}

/// A member of a guild as JSON.
pub open spec fn member_view(x: MemberInfo) -> JsonView {
    JsonView::Object(
        seq![
            ("user_id"@, json::id_view(x.user_id)),
            ("username"@, JsonView::Text(x.username@)),
            ("nick"@, opt_view(x.nick)),
            ("roles"@, json::ids_view(x.roles@)),
            ("joined_at"@, opt_view(x.joined_at)),
        ],
    )
}

/// A member of a guild as JSON.
pub fn member_json(x: &MemberInfo) -> (r: Json)
    ensures
        r@ == member_view(*x),
{
    broadcast use json::lemma_json_view;

    let mut out: Object = Object::new();
    out.put("user_id", Json::id(x.user_id));
    out.put("username", Json::string(x.username.as_str()));
    out.put("nick", opt_json(&x.nick));
    out.put("roles", json::ids(&x.roles));
    out.put("joined_at", opt_json(&x.joined_at));
    assert(out.fields() =~= member_view(*x)->Object_0);
    out.done()
}

/// A role.
#[derive(Debug, PartialEq, Eq)]
pub struct RoleInfo {
    pub id: u64,
    pub name: String,
    pub position: u16,
    pub mentionable: bool,
}

/// A role as JSON.
pub open spec fn role_view(x: RoleInfo) -> JsonView {
    JsonView::Object(
        seq![
            ("id"@, json::id_view(x.id)),
            ("name"@, JsonView::Text(x.name@)),
            ("position"@, JsonView::Unsigned(x.position as u64)),
            ("mentionable"@, JsonView::Bool(x.mentionable)),
        ],
    )
}

/// A role as JSON.
pub fn role_json(x: &RoleInfo) -> (r: Json)
    ensures
        r@ == role_view(*x),
{
    broadcast use json::lemma_json_view;

    let mut out: Object = Object::new();
    out.put("id", Json::id(x.id));
    out.put("name", Json::string(x.name.as_str()));
    out.put("position", Json::Unsigned(x.position as u64));
    out.put("mentionable", Json::Bool(x.mentionable));
    assert(out.fields() =~= role_view(*x)->Object_0);
    out.done()
}

/// What the roles of a guild are answered with.
pub open spec fn roles_view(list: Seq<RoleInfo>) -> JsonView {
    JsonView::Object(
        seq![("roles"@, JsonView::Array(list.map_values(|x: RoleInfo| role_view(x))))],
    )
}

/// What the roles of a guild are answered with.
pub fn list_roles(list: &Vec<RoleInfo>) -> (r: Json)
    ensures
        r@ == roles_view(list@),
{
    broadcast use json::lemma_json_view;

    let ghost shown = |x: RoleInfo| role_view(x);
    let mut items: Vec<Json> = Vec::new();
    let mut i: usize = 0;
    while i < list.len()
        invariant
            i <= list@.len(),
            items@.len() == i,
            shown == (|x: RoleInfo| role_view(x)),
            forall|k: int| 0 <= k < i ==> (#[trigger] items@[k])@ == shown(list@[k]),
        decreases list@.len() - i,
    {
        items.push(role_json(&list[i]));
        i = i + 1;
    }
    assert(json::json_views(items@) =~= list@.map_values(shown));
    let mut out: Object = Object::new();
    out.put("roles", Json::Array(items));
    assert(out.fields() =~= roles_view(list@)->Object_0);
    out.done()
}

/// How an emoji is written in a message.
pub open spec fn emoji_use(x: EmojiInfo) -> Seq<char> {
    (if x.animated {
        "<a:"@
    } else {
        "<:"@
    }) + x.name@ + ":"@ + text::decimal(x.id as nat) + ">"@
}

fn emoji_use_string(x: &EmojiInfo) -> (r: String)
    ensures
        r@ == emoji_use(*x),
{
    let mut out: String = if x.animated {
        "<a:".to_owned()
    } else {
        "<:".to_owned()
    };
    out.append(x.name.as_str());
    out.append(":");
    let id: String = text::decimal_string(x.id);
    out.append(id.as_str());
    out.append(">");
    out
}

/// An emoji of a guild.
#[derive(Debug, PartialEq, Eq)]
pub struct EmojiInfo {
    pub id: u64,
    pub name: String,
    pub animated: bool,
}

/// An emoji as JSON.
pub open spec fn emoji_view(x: EmojiInfo) -> JsonView {
    JsonView::Object(
        seq![
            ("id"@, json::id_view(x.id)),
            ("name"@, JsonView::Text(x.name@)),
            ("animated"@, JsonView::Bool(x.animated)),
            ("use_as"@, JsonView::Text(emoji_use(x))),
        ],
    )
}

/// An emoji as JSON.
pub fn emoji_json(x: &EmojiInfo) -> (r: Json)
    ensures
        r@ == emoji_view(*x),
{
    broadcast use json::lemma_json_view;

    let mut out: Object = Object::new();
    out.put("id", Json::id(x.id));
    out.put("name", Json::string(x.name.as_str()));
    out.put("animated", Json::Bool(x.animated));
    out.put("use_as", Json::Text(emoji_use_string(x)));
    assert(out.fields() =~= emoji_view(*x)->Object_0);
    out.done()
}

/// What the emojis of a guild are answered with.
pub open spec fn emojis_view(list: Seq<EmojiInfo>) -> JsonView {
    JsonView::Object(
        seq![("emojis"@, JsonView::Array(list.map_values(|x: EmojiInfo| emoji_view(x))))],
    )
}

/// What the emojis of a guild are answered with.
pub fn list_emojis(list: &Vec<EmojiInfo>) -> (r: Json)
    ensures
        r@ == emojis_view(list@),
{
    broadcast use json::lemma_json_view;

    let ghost shown = |x: EmojiInfo| emoji_view(x);
    let mut items: Vec<Json> = Vec::new();
    let mut i: usize = 0;
    while i < list.len()
        invariant
            i <= list@.len(),
            items@.len() == i,
            shown == (|x: EmojiInfo| emoji_view(x)),
            forall|k: int| 0 <= k < i ==> (#[trigger] items@[k])@ == shown(list@[k]),
        decreases list@.len() - i,
    {
        items.push(emoji_json(&list[i]));
        i = i + 1;
    }
    assert(json::json_views(items@) =~= list@.map_values(shown));
    let mut out: Object = Object::new();
    out.put("emojis", Json::Array(items));
    assert(out.fields() =~= emojis_view(list@)->Object_0);
    out.done()
}

proof fn lemma_pieces_plain(s: Seq<char>, sep: char)
    requires
        !s.contains(sep),
    ensures
        text::pieces(s, sep) == seq![s],
    decreases s.len(),
{
    if s.len() > 0 {
        let init = s.drop_last();
        assert(!init.contains(sep)) by {
            assert forall|k: int| 0 <= k < init.len() implies init[k] != sep by {
                assert(init[k] == s[k]);
            }
        }
        assert(s.last() != sep) by {
            assert(s[s.len() - 1] == s.last());
        }
        lemma_pieces_plain(init, sep);
        assert(text::pieces(s, sep) =~= seq![s]) by {
            assert(init.push(s.last()) =~= s);
        }
    } else {
        assert(s =~= Seq::empty());
    }
}

proof fn lemma_pieces_joined(a: Seq<char>, b: Seq<char>, sep: char)
    requires
        !b.contains(sep),
    ensures
        text::pieces(a.push(sep) + b, sep) == text::pieces(a, sep).push(b),
    decreases b.len(),
{
    let whole = a.push(sep) + b;
    if b.len() == 0 {
        assert(whole =~= a.push(sep));
        assert(whole.drop_last() =~= a);
        assert(b =~= Seq::empty());
    } else {
        let init = b.drop_last();
        assert(!init.contains(sep)) by {
            assert forall|k: int| 0 <= k < init.len() implies init[k] != sep by {
                assert(init[k] == b[k]);
            }
        }
        assert(b.last() != sep) by {
            assert(b[b.len() - 1] == b.last());
        }
        lemma_pieces_joined(a, init, sep);
        assert(whole.drop_last() =~= a.push(sep) + init);
        assert(whole.last() == b.last());
        let before = text::pieces(a, sep).push(init);
        assert(before.last() == init);
        assert(init.push(b.last()) =~= b);
        assert(before.update(before.len() - 1, init.push(b.last())) =~= text::pieces(
            a,
            sep,
        ).push(b));
    }
}

/// What is listed of an emoji can be reacted with: read as a reaction, it is the
/// emoji again. The names of emojis hold no colon.
pub proof fn law_listed_emojis_read_back(x: EmojiInfo)
    requires
        !x.name@.contains(':'),
    ensures
        messaging::emoji_parts(emoji_use(x)) == Some(
            (
                if x.animated {
                    "a"@
                } else {
                    ""@
                },
                x.name@,
                x.id,
            ),
        ),
{
    let kind = if x.animated {
        "a"@
    } else {
        ""@
    };
    let id = text::decimal(x.id as nat);
    let t = emoji_use(x);
    reveal_strlit("<a:");
    reveal_strlit("<:");
    reveal_strlit(":");
    reveal_strlit(">");
    reveal_strlit("a");
    reveal_strlit("");
    text::lemma_decimal_value(x.id as nat);
    let inner = kind.push(':') + x.name@.push(':') + id;
    assert(t =~= seq!['<'] + inner + seq!['>']);
    assert(t[0] == '<' && t.last() == '>');
    assert(text::trimmed(t) == t);
    assert(t.subrange(1, t.len() - 1) =~= inner);
    assert(!kind.contains(':'));
    assert(!id.contains(':'));
    lemma_pieces_plain(kind, ':');
    lemma_pieces_joined(kind, x.name@, ':');
    assert((kind.push(':') + x.name@).push(':') + id =~= inner);
    lemma_pieces_joined(kind.push(':') + x.name@, id, ':');
    assert(text::is_digit(id[0]));
    assert(text::parsed_u64(id) == Some(x.id));
    let parts = text::pieces(inner, ':');
    assert(parts =~= seq![kind, x.name@, id]);
}

/// Guilds, channels, roles and emojis are listed one by one in their order, and none is
/// left out.
pub proof fn law_lists_leave_nothing_out(
    guilds: Seq<GuildInfo>,
    channels: Seq<ChannelInfo>,
    roles: Seq<RoleInfo>,
    emojis: Seq<EmojiInfo>,
    i: int,
)
    ensures
        guilds_view(guilds) matches JsonView::Object(fields) && fields[0].0 == "guilds"@ && (
        fields[0].1 matches JsonView::Array(list) && list.len() == guilds.len() && (0 <= i
            < guilds.len() ==> list[i] == guild_view(guilds[i]))),
        channels_view(channels) matches JsonView::Object(fields) && fields[0].0 == "channels"@ && (
        fields[0].1 matches JsonView::Array(list) && list.len() == channels.len() && (0 <= i
            < channels.len() ==> list[i] == channel_view(channels[i]))),
        roles_view(roles) matches JsonView::Object(fields) && fields[0].0 == "roles"@ && (
        fields[0].1 matches JsonView::Array(list) && list.len() == roles.len() && (0 <= i
            < roles.len() ==> list[i] == role_view(roles[i]))),
        emojis_view(emojis) matches JsonView::Object(fields) && fields[0].0 == "emojis"@ && (
        fields[0].1 matches JsonView::Array(list) && list.len() == emojis.len() && (0 <= i
            < emojis.len() ==> list[i] == emoji_view(emojis[i]))),
{
}

/// A guild, a channel, a role and an emoji are told by their ids and names, and by what
/// else is known of them.
pub proof fn law_things_are_told_by_id(
    guild: GuildInfo,
    listed: ChannelInfo,
    channel: Channel,
    role: RoleInfo,
    emoji: EmojiInfo,
)
    ensures
        guild_view(guild) matches JsonView::Object(f) && f.len() == 2 && f[0] == (
            "id"@,
            JsonView::Text(text::decimal(guild.id as nat)),
        ) && f[1] == ("name"@, JsonView::Text(guild.name@)),
        channel_view(listed) matches JsonView::Object(f) && f.len() == 3 && f[0] == (
            "id"@,
            JsonView::Text(text::decimal(listed.id as nat)),
        ) && f[1] == ("name"@, JsonView::Text(listed.name@)) && f[2] == (
            "kind"@,
            JsonView::Text(listed.kind@),
        ),
        lone_channel_view(channel) matches JsonView::Object(f) && f.len() == 3 && match channel {
            Channel::Guild { id, name } => f[0].1 == JsonView::Text(text::decimal(id as nat))
                && f[1].1 == JsonView::Text(name@) && f[2].1 == JsonView::Text("guild"@),
            Channel::Private { id, name } => f[0].1 == JsonView::Text(text::decimal(id as nat))
                && f[1].1 == JsonView::Text(name@) && f[2].1 == JsonView::Text("private"@),
            Channel::Other { id } => f[0].1 == JsonView::Text(text::decimal(id as nat))
                && f[1].1 == JsonView::Text("(unknown)"@) && f[2].1 == JsonView::Text("unknown"@),
        },
        role_view(role) matches JsonView::Object(f) && f.len() == 4 && f[0] == (
            "id"@,
            JsonView::Text(text::decimal(role.id as nat)),
        ) && f[1] == ("name"@, JsonView::Text(role.name@)) && f[2] == (
            "position"@,
            JsonView::Unsigned(role.position as u64),
        ) && f[3] == ("mentionable"@, JsonView::Bool(role.mentionable)),
        emoji_view(emoji) matches JsonView::Object(f) && f.len() == 4 && f[0] == (
            "id"@,
            JsonView::Text(text::decimal(emoji.id as nat)),
        ) && f[1] == ("name"@, JsonView::Text(emoji.name@)) && f[2] == (
            "animated"@,
            JsonView::Bool(emoji.animated),
        ) && f[3].0 == "use_as"@,
{
}

/// A user and a member are told by their ids and names; what is not known of them is null.
pub proof fn law_users_are_told_by_id(user: UserInfo, member: MemberInfo)
    ensures
        user_view(user) matches JsonView::Object(f) && f.len() == 4 && f[0] == (
            "id"@,
            JsonView::Text(text::decimal(user.id as nat)),
        ) && f[1] == ("name"@, JsonView::Text(user.name@)) && f[2].0 == "discriminator"@ && (
        user.discriminator is None <==> f[2].1 == JsonView::Null) && f[3] == (
            "bot"@,
            JsonView::Bool(user.bot),
        ),
        member_view(member) matches JsonView::Object(f) && f.len() == 5 && f[0] == (
            "user_id"@,
            JsonView::Text(text::decimal(member.user_id as nat)),
        ) && f[1] == ("username"@, JsonView::Text(member.username@)) && f[2].0 == "nick"@ && (
        member.nick matches Some(n) ==> f[2].1 == JsonView::Text(n@)) && (member.nick is None
            ==> f[2].1 == JsonView::Null) && f[3] == ("roles"@, json::ids_view(member.roles@)) && (
        member.joined_at matches Some(t) ==> f[4] == ("joined_at"@, JsonView::Text(t@))) && (
        member.joined_at is None ==> f[4] == ("joined_at"@, JsonView::Null)),
{
}

} // verus!
