//! Embeds: the boxes with titles, fields and pictures that a message can carry.

use vstd::prelude::*;
use crate::json::{self, Json, JsonView};
use crate::text;

verus! {

/// The most embeds of a message.
pub const MAX_EMBEDS_PER_MESSAGE: usize = 10;

// ── Text ────────────────────────────────────────────────────────────────────

/// A text that may not be there, as a list.
pub open spec fn listed(s: Option<Seq<char>>) -> Seq<Seq<char>> {
    match s {
        Some(t) => seq![t],
        None => Seq::empty(),
    }
}

/// The text of a value: the value itself where it is a string, else its field.
pub open spec fn text_of(value: Option<JsonView>, name: Seq<char>) -> Option<Seq<char>> {
    match value {
        Some(JsonView::Text(s)) => Some(s),
        Some(v) => json::string_of(json::member(v, name)),
        None => None,
    }
}

/// The texts of the fields of an embed.
pub open spec fn field_texts(fields: Seq<JsonView>) -> Seq<Seq<char>>
    decreases fields.len(),
{
    if fields.len() == 0 {
        Seq::empty()
    } else {
        let field = fields.last();
        field_texts(fields.drop_last()) + listed(json::string_of(json::member(field, "name"@)))
            + listed(json::string_of(json::member(field, "value"@)))
    }
}

/// The texts of an embed: everything in it that is shown as words.
pub open spec fn embed_texts(embed: JsonView) -> Seq<Seq<char>> {
    listed(json::string_of(json::member(embed, "title"@))) + listed(
        json::string_of(json::member(embed, "description"@)),
    ) + listed(text_of(json::member(embed, "footer"@), "text"@)) + listed(
        text_of(json::member(embed, "author"@), "name"@),
    ) + match json::array_of(json::member(embed, "fields"@)) {
        Some(fields) => field_texts(fields),
        None => Seq::empty(),
    }
}

/// The texts of several embeds.
pub open spec fn all_texts(embeds: Seq<JsonView>) -> Seq<Seq<char>>
    decreases embeds.len(),
{
    if embeds.len() == 0 {
        Seq::empty()
    } else {
        all_texts(embeds.drop_last()) + embed_texts(embeds.last())
    }
}

fn push_opt(out: &mut Vec<String>, s: Option<String>)
    ensures
        text::texts(final(out)@) == text::texts(old(out)@) + listed(text::text_opt(s)),
{
    let ghost before = out@;
    match s {
        Some(t) => {
            out.push(t);
            assert(text::texts(out@) =~= text::texts(before) + seq![t@]);
        },
        None => {
            assert(text::texts(out@) =~= text::texts(before) + Seq::empty());
        },
    }
}

fn text_or_field(value: Option<&Json>, name: &str) -> (r: Option<String>)
    ensures
        text::text_opt(r) == text_of(json::json_opt(value), name@),
{
    match value {
        Some(v) => match v.as_str() {
            Some(s) => Some(s.to_owned()),
            None => v.get_string(name),
        },
        None => None,
    }
}

fn push_field_texts(out: &mut Vec<String>, fields: &Vec<Json>)
    ensures
        text::texts(final(out)@) == text::texts(old(out)@) + field_texts(
            json::json_views(fields@),
        ),
{
    let ghost before = text::texts(out@);
    let ghost all = json::json_views(fields@);
    let mut i: usize = 0;
    assert(before =~= before + field_texts(all.take(0)));
    while i < fields.len()
        invariant
            i <= fields@.len(),
            all == json::json_views(fields@),
            text::texts(out@) == before + field_texts(all.take(i as int)),
        decreases fields@.len() - i,
    {
        let ghost had = text::texts(out@);
        let name: Option<String> = fields[i].get_string("name");
        let value: Option<String> = fields[i].get_string("value");
        let ghost n = listed(text::text_opt(name));
        let ghost v = listed(text::text_opt(value));
        push_opt(out, name);
        push_opt(out, value);
        proof {
            assert(all.take(i + 1).drop_last() =~= all.take(i as int));
            assert(all.take(i + 1).last() == fields@[i as int]@);
            assert(text::texts(out@) =~= before + (field_texts(all.take(i as int)) + n + v));
        }
        i = i + 1;
    }
    assert(all.take(all.len() as int) =~= all);
}

fn push_embed_texts(out: &mut Vec<String>, embed: &Json)
    ensures
        text::texts(final(out)@) == text::texts(old(out)@) + embed_texts(embed@),
{
    let ghost before = text::texts(out@);
    push_opt(out, embed.get_string("title"));
    push_opt(out, embed.get_string("description"));
    push_opt(out, text_or_field(embed.get("footer"), "text"));
    push_opt(out, text_or_field(embed.get("author"), "name"));
    let ghost head = text::texts(out@);
    if let Some(value) = embed.get("fields") {
        if let Some(fields) = value.as_array() {
            push_field_texts(out, fields);
        } else {
            assert(head =~= head + Seq::empty());
        }
    } else {
        assert(head =~= head + Seq::empty());
    }
    assert(text::texts(out@) =~= before + embed_texts(embed@));
}

/// Everything in the embeds that is shown as words, one below the other: what the
/// hooks have to see. Addresses and colours are left out.
pub fn extract_text_surfaces(value: &Json) -> (r: String)
    ensures
        r@ == match value@ {
            JsonView::Array(embeds) => text::joined(all_texts(embeds), "\n"@),
            _ => Seq::empty(),
        },
{
    let embeds: &Vec<Json> = match value.as_array() {
        Some(list) => list,
        None => {
            return String::new();
        },
    };
    let ghost all = json::json_views(embeds@);
    let mut out: Vec<String> = Vec::new();
    let mut i: usize = 0;
    assert(text::texts(out@) =~= all_texts(all.take(0)));
    while i < embeds.len()
        invariant
            i <= embeds@.len(),
            all == json::json_views(embeds@),
            text::texts(out@) == all_texts(all.take(i as int)),
        decreases embeds@.len() - i,
    {
        push_embed_texts(&mut out, &embeds[i]);
        proof {
            assert(all.take(i + 1).drop_last() =~= all.take(i as int));
            assert(all.take(i + 1).last() == embeds@[i as int]@);
        }
        i = i + 1;
    }
    assert(all.take(all.len() as int) =~= all);
    text::join(&out, "\n")
}

// ── Embeds ──────────────────────────────────────────────────────────────────

/// The line at the foot of an embed.
#[derive(Debug, PartialEq, Eq)]
pub struct Footer {
    pub text: String,
    pub icon_url: Option<String>,
}

/// Who an embed is by.
#[derive(Debug, PartialEq, Eq)]
pub struct Author {
    pub name: String,
    pub url: Option<String>,
    pub icon_url: Option<String>,
}

/// A field of an embed.
#[derive(Debug, PartialEq, Eq)]
pub struct Field {
    pub name: String,
    pub value: String,
    pub inline: bool,
}

/// An embed.
#[derive(Debug, PartialEq, Eq)]
pub struct Embed {
    pub title: Option<String>,
    pub description: Option<String>,
    pub url: Option<String>,
    pub color: Option<u32>,
    /// Seconds since the Unix epoch, and nanoseconds within the second.
    pub timestamp: Option<(i64, u32)>,
    pub footer: Option<Footer>,
    pub author: Option<Author>,
    pub thumbnail: Option<String>,
    pub image: Option<String>,
    pub fields: Vec<Field>,
}

/// A [`Footer`] as a value.
#[verifier::ext_equal]
pub struct FooterView {
    pub text: Seq<char>,
    pub icon_url: Option<Seq<char>>,
}

/// An [`Author`] as a value.
#[verifier::ext_equal]
pub struct AuthorView {
    pub name: Seq<char>,
    pub url: Option<Seq<char>>,
    pub icon_url: Option<Seq<char>>,
}

/// A [`Field`] as a value.
#[verifier::ext_equal]
pub struct FieldView {
    pub name: Seq<char>,
    pub value: Seq<char>,
    pub inline: bool,
}

/// An [`Embed`] as a value.
#[verifier::ext_equal]
pub struct EmbedView {
    pub title: Option<Seq<char>>,
    pub description: Option<Seq<char>>,
    pub url: Option<Seq<char>>,
    pub color: Option<u32>,
    pub timestamp: Option<(i64, u32)>,
    pub footer: Option<FooterView>,
    pub author: Option<AuthorView>,
    pub thumbnail: Option<Seq<char>>,
    pub image: Option<Seq<char>>,
    pub fields: Seq<FieldView>,
}

impl View for Footer {
    type V = FooterView;

    open spec fn view(&self) -> FooterView {
        FooterView { text: self.text@, icon_url: text::text_opt(self.icon_url) }
    }
}

impl View for Author {
    type V = AuthorView;

    open spec fn view(&self) -> AuthorView {
        AuthorView {
            name: self.name@,
            url: text::text_opt(self.url),
            icon_url: text::text_opt(self.icon_url),
        }
    }
}

impl View for Field {
    type V = FieldView;

    open spec fn view(&self) -> FieldView {
        FieldView { name: self.name@, value: self.value@, inline: self.inline }
    }
}

/// The values of fields.
pub open spec fn field_views(fields: Seq<Field>) -> Seq<FieldView> {
    fields.map_values(|f: Field| f@)
}

impl View for Embed {
    type V = EmbedView;

    open spec fn view(&self) -> EmbedView {
        EmbedView {
            title: text::text_opt(self.title),
            description: text::text_opt(self.description),
            url: text::text_opt(self.url),
            color: self.color,
            timestamp: self.timestamp,
            footer: match self.footer {
                Some(f) => Some(f@),
                None => None,
            },
            author: match self.author {
                Some(a) => Some(a@),
                None => None,
            },
            thumbnail: text::text_opt(self.thumbnail),
            image: text::text_opt(self.image),
            fields: field_views(self.fields@),
        }
    }
}

// ── Reading an embed ────────────────────────────────────────────────────────

/// The moment that a time in RFC 3339 stands for: seconds since the Unix epoch and
/// nanoseconds within the second.
pub uninterp spec fn moment_of(text: Seq<char>) -> Option<(i64, u32)>;

/// `serenity::model::Timestamp::parse`: reads a time in RFC 3339. What it accepts,
/// and the moment that it gives, depend on the text alone.
#[verifier::external_body]
fn read_moment(s: &str) -> (r: Option<(i64, u32)>)
    ensures
        r == moment_of(s@),
{
    match serenity::model::Timestamp::parse(s) {
        Ok(t) => Some((t.unix_timestamp(), t.timestamp_subsec_nanos())),
        Err(_) => None,
    }
}

/// The colour that a value stands for: a number, of which the low 32 bits count, or
/// hexadecimal digits, with a `#` in front or without.
pub open spec fn color_of(value: Option<JsonView>) -> Option<u32> {
    match value {
        Some(JsonView::Unsigned(n)) => Some((n % 0x1_0000_0000) as u32),
        Some(JsonView::Text(s)) => text::parsed_hex_u32(text::without_prefix_char(s, '#')),
        _ => None,
    }
}

/// The colour that a value stands for.
pub fn parse_color(value: Option<&Json>) -> (r: Option<u32>)
    ensures
        r == color_of(json::json_opt(value)),
{
    let v: &Json = match value {
        Some(v) => v,
        None => {
            return None;
        },
    };
    if let Some(n) = v.as_u64() {
        return Some((n % 0x1_0000_0000) as u32);
    }
    if let Some(s) = v.as_str() {
        let hex: String = text::strip_prefix_char(s, '#');
        return text::parse_hex_u32(hex.as_str());
    }
    None
}

/// How an embed, or a part of it, is named in a message.
pub open spec fn place(index: nat) -> Seq<char> {
    "embeds["@ + text::decimal(index) + "]"@
}

fn at_place(index: usize, rest: &str) -> (r: String)
    ensures
        r@ == place(index as nat) + rest@,
{
    let mut out: String = "embeds[".to_owned();
    let n: String = text::decimal_string(index as u64);
    out.append(n.as_str());
    out.append("]");
    out.append(rest);
    out
}

/// A footer: a string, or an object with a text.
pub open spec fn footer_of(value: JsonView, index: nat) -> Result<FooterView, Seq<char>> {
    match value {
        JsonView::Text(s) => Ok(FooterView { text: s, icon_url: None }),
        JsonView::Object(_) => match json::string_of(json::member(value, "text"@)) {
            Some(t) => Ok(
                FooterView {
                    text: t,
                    icon_url: json::string_of(json::member(value, "icon_url"@)),
                },
            ),
            None => Err(place(index) + ".footer.text is required"@),
        },
        _ => Err(place(index) + ".footer must be a string or object"@),
    }
}

/// Reads a footer.
pub fn parse_footer(value: &Json, index: usize) -> (r: Result<Footer, String>)
    ensures
        match r {
            Ok(f) => footer_of(value@, index as nat) == Ok::<FooterView, Seq<char>>(f@),
            Err(e) => footer_of(value@, index as nat) == Err::<FooterView, Seq<char>>(e@),
        },
{
    if let Some(s) = value.as_str() {
        return Ok(Footer { text: s.to_owned(), icon_url: None });
    }
    if !value.is_object() {
        return Err(at_place(index, ".footer must be a string or object"));
    }
    match value.get_string("text") {
        Some(t) => Ok(Footer { text: t, icon_url: value.get_string("icon_url") }),
        None => Err(at_place(index, ".footer.text is required")),
    }
}

/// An author: a string, or an object with a name.
pub open spec fn author_of(value: JsonView, index: nat) -> Result<AuthorView, Seq<char>> {
    match value {
        JsonView::Text(s) => Ok(AuthorView { name: s, url: None, icon_url: None }),
        JsonView::Object(_) => match json::string_of(json::member(value, "name"@)) {
            Some(n) => Ok(
                AuthorView {
                    name: n,
                    url: json::string_of(json::member(value, "url"@)),
                    icon_url: json::string_of(json::member(value, "icon_url"@)),
                },
            ),
            None => Err(place(index) + ".author.name is required"@),
        },
        _ => Err(place(index) + ".author must be a string or object"@),
    }
}

/// Reads an author.
pub fn parse_author(value: &Json, index: usize) -> (r: Result<Author, String>)
    ensures
        match r {
            Ok(a) => author_of(value@, index as nat) == Ok::<AuthorView, Seq<char>>(a@),
            Err(e) => author_of(value@, index as nat) == Err::<AuthorView, Seq<char>>(e@),
        },
{
    if let Some(s) = value.as_str() {
        return Ok(Author { name: s.to_owned(), url: None, icon_url: None });
    }
    if !value.is_object() {
        return Err(at_place(index, ".author must be a string or object"));
    }
    match value.get_string("name") {
        Some(n) => Ok(
            Author {
                name: n,
                url: value.get_string("url"),
                icon_url: value.get_string("icon_url"),
            },
        ),
        None => Err(at_place(index, ".author.name is required")),
    }
}

/// How a field is named in a message.
pub open spec fn field_place(index: nat, field: nat) -> Seq<char> {
    place(index) + ".fields["@ + text::decimal(field) + "]"@
}

/// A field: an object with a name and a value.
pub open spec fn field_of(value: JsonView, index: nat, field: nat) -> Result<FieldView, Seq<char>> {
    if !(value is Object) {
        Err(field_place(index, field) + " must be an object"@)
    } else {
        match (
            json::string_of(json::member(value, "name"@)),
            json::string_of(json::member(value, "value"@)),
        ) {
            (None, _) => Err(field_place(index, field) + ".name is required"@),
            (_, None) => Err(field_place(index, field) + ".value is required"@),
            (Some(name), Some(v)) => Ok(
                FieldView {
                    name,
                    value: v,
                    inline: json::bool_of(json::member(value, "inline"@)) == Some(true),
                },
            ),
        }
    }
}

/// Fields, up to the first that is none.
pub open spec fn fields_of(values: Seq<JsonView>, index: nat) -> Result<Seq<FieldView>, Seq<char>>
    decreases values.len(),
{
    if values.len() == 0 {
        Ok(Seq::empty())
    } else {
        match fields_of(values.drop_last(), index) {
            Err(e) => Err(e),
            Ok(before) => match field_of(values.last(), index, (values.len() - 1) as nat) {
                Err(e) => Err(e),
                Ok(f) => Ok(before.push(f)),
            },
        }
    }
}

proof fn lemma_fields_error(values: Seq<JsonView>, index: nat, n: int)
    requires
        0 <= n <= values.len(),
        fields_of(values.take(n), index) is Err,
    ensures
        fields_of(values, index) == fields_of(values.take(n), index),
    decreases values.len(),
{
    if n < values.len() {
        assert(values.drop_last().take(n) =~= values.take(n));
        lemma_fields_error(values.drop_last(), index, n);
    } else {
        assert(values.take(n) =~= values);
    }
}

fn field_error(index: usize, field: usize, rest: &str) -> (r: String)
    ensures
        r@ == field_place(index as nat, field as nat) + rest@,
{
    let mut out: String = at_place(index, ".fields[");
    let n: String = text::decimal_string(field as u64);
    out.append(n.as_str());
    out.append("]");
    out.append(rest);
    out
}

fn parse_field(value: &Json, index: usize, field: usize) -> (r: Result<Field, String>)
    ensures
        match r {
            Ok(f) => field_of(value@, index as nat, field as nat) == Ok::<FieldView, Seq<char>>(f@),
            Err(e) => field_of(value@, index as nat, field as nat) == Err::<FieldView, Seq<char>>(
                e@,
            ),
        },
{
    if !value.is_object() {
        return Err(field_error(index, field, " must be an object"));
    }
    let name: String = match value.get_string("name") {
        Some(n) => n,
        None => {
            return Err(field_error(index, field, ".name is required"));
        },
    };
    let shown: String = match value.get_string("value") {
        Some(v) => v,
        None => {
            return Err(field_error(index, field, ".value is required"));
        },
    };
    let inline: bool = match value.get("inline") {
        Some(v) => match v.as_bool() {
            Some(b) => b,
            None => false,
        },
        None => false,
    };
    Ok(Field { name, value: shown, inline })
}

/// Reads fields.
pub fn parse_fields(values: &Vec<Json>, index: usize) -> (r: Result<Vec<Field>, String>)
    ensures
        match r {
            Ok(f) => fields_of(json::json_views(values@), index as nat) == Ok::<
                Seq<FieldView>,
                Seq<char>,
            >(field_views(f@)),
            Err(e) => fields_of(json::json_views(values@), index as nat) == Err::<
                Seq<FieldView>,
                Seq<char>,
            >(e@),
        },
{
    let ghost all = json::json_views(values@);
    let mut out: Vec<Field> = Vec::new();
    let mut i: usize = 0;
    assert(field_views(out@) =~= Seq::empty());
    while i < values.len()
        invariant
            i <= values@.len(),
            all == json::json_views(values@),
            fields_of(all.take(i as int), index as nat) == Ok::<Seq<FieldView>, Seq<char>>(
                field_views(out@),
            ),
        decreases values@.len() - i,
    {
        let ghost had = field_views(out@);
        proof {
            assert(all.take(i + 1).drop_last() =~= all.take(i as int));
            assert(all.take(i + 1).last() == values@[i as int]@);
        }
        match parse_field(&values[i], index, i) {
            Ok(f) => {
                out.push(f);
                assert(field_views(out@) =~= had.push(f@));
            },
            Err(e) => {
                proof {
                    lemma_fields_error(all, index as nat, i + 1);
                }
                return Err(e);
            },
        }
        i = i + 1;
    }
    assert(all.take(all.len() as int) =~= all);
    Ok(out)
}

/// An embed, or what is wrong with it. The first thing that is wrong counts, in the
/// order: timestamp, footer, author, fields.
pub open spec fn embed_of(value: JsonView, index: nat) -> Result<EmbedView, Seq<char>> {
    let stamp = json::string_of(json::member(value, "timestamp"@));
    let footer = match json::member(value, "footer"@) {
        Some(v) => match footer_of(v, index) {
            Ok(f) => Ok(Some(f)),
            Err(e) => Err(e),
        },
        None => Ok(None),
    };
    let author = match json::member(value, "author"@) {
        Some(v) => match author_of(v, index) {
            Ok(a) => Ok(Some(a)),
            Err(e) => Err(e),
        },
        None => Ok(None),
    };
    let fields = match json::member(value, "fields"@) {
        Some(JsonView::Array(list)) => fields_of(list, index),
        Some(_) => Err(place(index) + ".fields must be an array"@),
        None => Ok(Seq::empty()),
    };
    if !(value is Object) {
        Err(place(index) + " must be a JSON object"@)
    } else if stamp is Some && moment_of(stamp->0) is None {
        Err(place(index) + ".timestamp: invalid ISO 8601 timestamp"@)
    } else {
        match (footer, author, fields) {
            (Err(e), _, _) => Err(e),
            (_, Err(e), _) => Err(e),
            (_, _, Err(e)) => Err(e),
            (Ok(f), Ok(a), Ok(list)) => Ok(
                EmbedView {
                    title: json::string_of(json::member(value, "title"@)),
                    description: json::string_of(json::member(value, "description"@)),
                    url: json::string_of(json::member(value, "url"@)),
                    color: color_of(json::member(value, "color"@)),
                    timestamp: match stamp {
                        Some(s) => moment_of(s),
                        None => None,
                    },
                    footer: f,
                    author: a,
                    thumbnail: text_of(json::member(value, "thumbnail"@), "url"@),
                    image: text_of(json::member(value, "image"@), "url"@),
                    fields: list,
                },
            ),
        }
    }
}

/// Reads an embed.
pub fn parse_one(value: &Json, index: usize) -> (r: Result<Embed, String>)
    ensures
        match r {
            Ok(x) => embed_of(value@, index as nat) == Ok::<EmbedView, Seq<char>>(x@),
            Err(e) => embed_of(value@, index as nat) == Err::<EmbedView, Seq<char>>(e@),
        },
{
    if !value.is_object() {
        return Err(at_place(index, " must be a JSON object"));
    }
    let mut timestamp: Option<(i64, u32)> = None;
    if let Some(s) = value.get_string("timestamp") {
        match read_moment(s.as_str()) {
            Some(t) => {
                timestamp = Some(t);
            },
            None => {
                return Err(at_place(index, ".timestamp: invalid ISO 8601 timestamp"));
            },
        }
    }
    let mut footer: Option<Footer> = None;
    if let Some(v) = value.get("footer") {
        match parse_footer(v, index) {
            Ok(f) => {
                footer = Some(f);
            },
            Err(e) => {
                return Err(e);
            },
        }
    }
    let mut author: Option<Author> = None;
    if let Some(v) = value.get("author") {
        match parse_author(v, index) {
            Ok(a) => {
                author = Some(a);
            },
            Err(e) => {
                return Err(e);
            },
        }
    }
    let mut fields: Vec<Field> = Vec::new();
    assert(field_views(fields@) =~= Seq::empty());
    if let Some(v) = value.get("fields") {
        match v.as_array() {
            Some(list) => match parse_fields(list, index) {
                Ok(f) => {
                    fields = f;
                },
                Err(e) => {
                    return Err(e);
                },
            },
            None => {
                return Err(at_place(index, ".fields must be an array"));
            },
        }
    }
    Ok(
        Embed {
            title: value.get_string("title"),
            description: value.get_string("description"),
            url: value.get_string("url"),
            color: parse_color(value.get("color")),
            timestamp,
            footer,
            author,
            thumbnail: text_or_field(value.get("thumbnail"), "url"),
            image: text_or_field(value.get("image"), "url"),
            fields,
        },
    )
}

/// The values of embeds.
pub open spec fn embed_views(embeds: Seq<Embed>) -> Seq<EmbedView> {
    embeds.map_values(|e: Embed| e@)
}

/// Embeds, up to the first that is none.
pub open spec fn embeds_of(values: Seq<JsonView>) -> Result<Seq<EmbedView>, Seq<char>>
    decreases values.len(),
{
    if values.len() == 0 {
        Ok(Seq::empty())
    } else {
        match embeds_of(values.drop_last()) {
            Err(e) => Err(e),
            Ok(before) => match embed_of(values.last(), (values.len() - 1) as nat) {
                Err(e) => Err(e),
                Ok(x) => Ok(before.push(x)),
            },
        }
    }
}

proof fn lemma_embeds_error(values: Seq<JsonView>, n: int)
    requires
        0 <= n <= values.len(),
        embeds_of(values.take(n)) is Err,
    ensures
        embeds_of(values) == embeds_of(values.take(n)),
    decreases values.len(),
{
    if n < values.len() {
        assert(values.drop_last().take(n) =~= values.take(n));
        lemma_embeds_error(values.drop_last(), n);
    } else {
        assert(values.take(n) =~= values);
    }
}

/// What the embeds of a message are, or what is wrong with them.
pub open spec fn message_embeds(value: JsonView) -> Result<Seq<EmbedView>, Seq<char>> {
    match value {
        JsonView::Array(values) => if values.len() > 10 {
            Err("too many embeds: got "@ + text::decimal(values.len()) + ", maximum is 10"@)
        } else {
            embeds_of(values)
        },
        _ => Err("embeds must be a JSON array"@),
    }
}

/// Reads the embeds of a message.
pub fn parse_embeds(value: &Json) -> (r: Result<Vec<Embed>, String>)
    ensures
        match r {
            Ok(list) => message_embeds(value@) == Ok::<Seq<EmbedView>, Seq<char>>(
                embed_views(list@),
            ),
            Err(e) => message_embeds(value@) == Err::<Seq<EmbedView>, Seq<char>>(e@),
        },
{
    let values: &Vec<Json> = match value.as_array() {
        Some(list) => list,
        None => {
            return Err("embeds must be a JSON array".to_owned());
        },
    };
    let ghost all = json::json_views(values@);
    if values.len() > MAX_EMBEDS_PER_MESSAGE {
        let mut e: String = "too many embeds: got ".to_owned();
        let n: String = text::decimal_string(values.len() as u64);
        e.append(n.as_str());
        e.append(", maximum is 10");
        return Err(e);
    }
    let mut out: Vec<Embed> = Vec::new();
    let mut i: usize = 0;
    assert(embed_views(out@) =~= Seq::empty());
    while i < values.len()
        invariant
            i <= values@.len() <= 10,
            all == json::json_views(values@),
            value@ == JsonView::Array(all),
            embeds_of(all.take(i as int)) == Ok::<Seq<EmbedView>, Seq<char>>(embed_views(out@)),
        decreases values@.len() - i,
    {
        let ghost had = embed_views(out@);
        proof {
            assert(all.take(i + 1).drop_last() =~= all.take(i as int));
            assert(all.take(i + 1).last() == values@[i as int]@);
        }
        match parse_one(&values[i], i) {
            Ok(x) => {
                out.push(x);
                assert(embed_views(out@) =~= had.push(x@));
            },
            Err(e) => {
                proof {
                    lemma_embeds_error(all, i + 1);
                }
                return Err(e);
            },
        }
        i = i + 1;
    }
    assert(all.take(all.len() as int) =~= all);
    Ok(out)
}

proof fn lemma_field_words(values: Seq<JsonView>, index: nat, i: int)
    requires
        fields_of(values, index) is Ok,
        0 <= i < fields_of(values, index)->Ok_0.len(),
    ensures
        field_texts(values).contains(fields_of(values, index)->Ok_0[i].name),
        field_texts(values).contains(fields_of(values, index)->Ok_0[i].value),
    decreases values.len(),
{
    let before = field_texts(values.drop_last());
    let all = field_texts(values);
    let fields = fields_of(values, index)->Ok_0;
    let had = fields_of(values.drop_last(), index)->Ok_0;
    if i < had.len() {
        lemma_field_words(values.drop_last(), index, i);
        let j = choose|j: int| 0 <= j < before.len() && before[j] == had[i].name;
        let k = choose|k: int| 0 <= k < before.len() && before[k] == had[i].value;
        assert(all[j] == before[j] && all[k] == before[k]);
    } else {
        assert(all[before.len() as int] == fields[i].name);
        assert(all[before.len() as int + 1] == fields[i].value);
    }
}

/// The hooks see every word of an embed that can be posted: its title, its
/// description, its footer, its author, and the name and the value of each of its
/// fields are among the texts that they are given.
pub proof fn law_hooks_see_every_word(value: JsonView, index: nat, embed: EmbedView)
    requires
        embed_of(value, index) == Ok::<EmbedView, Seq<char>>(embed),
    ensures
        embed.title matches Some(t) ==> embed_texts(value).contains(t),
        embed.description matches Some(t) ==> embed_texts(value).contains(t),
        embed.footer matches Some(f) ==> embed_texts(value).contains(f.text),
        embed.author matches Some(a) ==> embed_texts(value).contains(a.name),
        forall|i: int|
            #![trigger embed.fields[i]]
            0 <= i < embed.fields.len() ==> embed_texts(value).contains(embed.fields[i].name)
                && embed_texts(value).contains(embed.fields[i].value),
{
    let a = listed(json::string_of(json::member(value, "title"@)));
    let b = listed(json::string_of(json::member(value, "description"@)));
    let c = listed(text_of(json::member(value, "footer"@), "text"@));
    let d = listed(text_of(json::member(value, "author"@), "name"@));
    let all = embed_texts(value);
    if embed.title is Some {
        assert(all[0] == embed.title->0);
    }
    if embed.description is Some {
        assert(all[a.len() as int] == embed.description->0);
    }
    if embed.footer is Some {
        assert(all[(a.len() + b.len()) as int] == embed.footer->0.text);
    }
    if embed.author is Some {
        assert(all[(a.len() + b.len() + c.len()) as int] == embed.author->0.name);
    }
    assert forall|i: int| #![trigger embed.fields[i]] 0 <= i < embed.fields.len() implies all.contains(
        embed.fields[i].name,
    ) && all.contains(embed.fields[i].value) by {
        let list = json::array_of(json::member(value, "fields"@))->0;
        let words = field_texts(list);
        let first = (a.len() + b.len() + c.len() + d.len()) as int;
        lemma_field_words(list, index, i);
        let j = choose|j: int| 0 <= j < words.len() && words[j] == embed.fields[i].name;
        let k = choose|k: int| 0 <= k < words.len() && words[k] == embed.fields[i].value;
        assert(all[first + j] == words[j] && all[first + k] == words[k]);
    }
}

/// An embed shows what it says: each part is what stands under its name, and what is not
/// there is not shown. Its colour is the number given, and its fields come one by one in
/// their order.
pub proof fn law_embeds_show_what_they_say(value: JsonView, index: nat, embed: EmbedView)
    requires
        embed_of(value, index) == Ok::<EmbedView, Seq<char>>(embed),
    ensures
        value is Object,
        match json::member(value, "title"@) {
            Some(JsonView::Text(s)) => embed.title == Some(s),
            _ => embed.title is None,
        },
        match json::member(value, "description"@) {
            Some(JsonView::Text(s)) => embed.description == Some(s),
            _ => embed.description is None,
        },
        match json::member(value, "url"@) {
            Some(JsonView::Text(s)) => embed.url == Some(s),
            _ => embed.url is None,
        },
        match json::member(value, "color"@) {
            Some(JsonView::Unsigned(n)) => n <= 0xffff_ffff ==> embed.color == Some(n as u32),
            Some(JsonView::Text(_)) => true,
            _ => embed.color is None,
        },
        match json::member(value, "footer"@) {
            Some(JsonView::Text(s)) => embed.footer == Some(FooterView { text: s, icon_url: None }),
            Some(v) => embed.footer matches Some(f) && json::member(v, "text"@) == Some(
                JsonView::Text(f.text),
            ),
            None => embed.footer is None,
        },
        match json::member(value, "author"@) {
            Some(JsonView::Text(s)) => embed.author == Some(
                AuthorView { name: s, url: None, icon_url: None },
            ),
            Some(v) => embed.author matches Some(a) && json::member(v, "name"@) == Some(
                JsonView::Text(a.name),
            ),
            None => embed.author is None,
        },
        json::member(value, "image"@) matches Some(JsonView::Text(s)) ==> embed.image == Some(s),
        json::member(value, "image"@) is None ==> embed.image is None,
        json::member(value, "thumbnail"@) matches Some(JsonView::Text(s)) ==> embed.thumbnail
            == Some(s),
        json::member(value, "thumbnail"@) is None ==> embed.thumbnail is None,
        match json::member(value, "fields"@) {
            Some(JsonView::Array(list)) => embed.fields.len() == list.len() && forall|i: int|
                0 <= i < list.len() ==> {
                    let f = #[trigger] embed.fields[i];
                    &&& json::member(list[i], "name"@) == Some(JsonView::Text(f.name))
                    &&& json::member(list[i], "value"@) == Some(JsonView::Text(f.value))
                    &&& f.inline <==> json::member(list[i], "inline"@) == Some(JsonView::Bool(true))
                },
            Some(_) => false,
            None => embed.fields.len() == 0,
        },
{
    if let Some(JsonView::Array(list)) = json::member(value, "fields"@) {
        lemma_fields_one_by_one(list, index, embed.fields);
    }
}

proof fn lemma_fields_one_by_one(values: Seq<JsonView>, index: nat, fields: Seq<FieldView>)
    requires
        fields_of(values, index) == Ok::<Seq<FieldView>, Seq<char>>(fields),
    ensures
        fields.len() == values.len(),
        forall|i: int|
            0 <= i < values.len() ==> {
                let f = #[trigger] fields[i];
                &&& json::member(values[i], "name"@) == Some(JsonView::Text(f.name))
                &&& json::member(values[i], "value"@) == Some(JsonView::Text(f.value))
                &&& f.inline <==> json::member(values[i], "inline"@) == Some(JsonView::Bool(true))
            },
    decreases values.len(),
{
    if values.len() > 0 {
        let front = values.drop_last();
        let before = fields_of(front, index)->Ok_0;
        lemma_fields_one_by_one(front, index, before);
        assert forall|i: int| 0 <= i < values.len() implies {
            let f = #[trigger] fields[i];
            &&& json::member(values[i], "name"@) == Some(JsonView::Text(f.name))
            &&& json::member(values[i], "value"@) == Some(JsonView::Text(f.value))
            &&& f.inline <==> json::member(values[i], "inline"@) == Some(JsonView::Bool(true))
        } by {
            if i < front.len() {
                assert(fields[i] == before[i]);
                assert(values[i] == front[i]);
            } else {
                assert(values[i] == values.last());
            }
        }
    }
}

/// A message carries a list of at most ten embeds, each as it was given and in its place.
pub proof fn law_messages_carry_ten_embeds_at_most(value: JsonView, embeds: Seq<EmbedView>)
    requires
        message_embeds(value) == Ok::<Seq<EmbedView>, Seq<char>>(embeds),
    ensures
        value matches JsonView::Array(values) && values.len() <= 10 && embeds.len() == values.len()
            && forall|i: int|
            0 <= i < values.len() ==> embed_of(values[i], i as nat) == Ok::<EmbedView, Seq<char>>(
                #[trigger] embeds[i],
            ),
        MAX_EMBEDS_PER_MESSAGE == 10,
{
    lemma_embeds_one_by_one(value->Array_0, embeds);
}

proof fn lemma_embeds_one_by_one(values: Seq<JsonView>, embeds: Seq<EmbedView>)
    requires
        embeds_of(values) == Ok::<Seq<EmbedView>, Seq<char>>(embeds),
    ensures
        embeds.len() == values.len(),
        forall|i: int|
            0 <= i < values.len() ==> embed_of(values[i], i as nat) == Ok::<EmbedView, Seq<char>>(
                #[trigger] embeds[i],
            ),
    decreases values.len(),
{
    if values.len() > 0 {
        let front = values.drop_last();
        let before = embeds_of(front)->Ok_0;
        lemma_embeds_one_by_one(front, before);
        assert forall|i: int| 0 <= i < values.len() implies embed_of(values[i], i as nat) == Ok::<
            EmbedView,
            Seq<char>,
        >(#[trigger] embeds[i]) by {
            if i < front.len() {
                assert(embeds[i] == before[i]);
                assert(values[i] == front[i]);
            } else {
                assert(values[i] == values.last());
            }
        }
    }
}

/// More than ten embeds, and what is no list of embeds, are refused.
pub proof fn law_too_many_embeds_are_refused(value: JsonView)
    ensures
        !(value is Array) ==> message_embeds(value) is Err,
        value matches JsonView::Array(values) ==> (values.len() > 10 ==> message_embeds(
            value,
        ) is Err),
        message_embeds(JsonView::Array(Seq::empty())) == Ok::<Seq<EmbedView>, Seq<char>>(
            Seq::empty(),
        ),
{
}

/// The words of every embed are among the words that the hooks see.
pub proof fn law_hooks_see_every_embed(embeds: Seq<JsonView>, i: int, word: Seq<char>)
    requires
        0 <= i < embeds.len(),
        embed_texts(embeds[i]).contains(word),
    ensures
        all_texts(embeds).contains(word),
    decreases embeds.len(),
{
    let front = embeds.drop_last();
    let before = all_texts(front);
    let last = embed_texts(embeds.last());
    if i < front.len() {
        law_hooks_see_every_embed(front, i, word);
        let k = choose|k: int| 0 <= k < before.len() && before[k] == word;
        assert((before + last)[k] == word);
    } else {
        let k = choose|k: int| 0 <= k < last.len() && last[k] == word;
        assert((before + last)[before.len() + k] == word);
    }
}

/// A colour may be written in hexadecimal digits, with a number sign before them or
/// without: both come to the same, and each digit counts sixteen times the next.
pub proof fn law_colours_may_be_written(s: Seq<char>, c: char)
    ensures
        s.len() == 0 || s[0] != '#' ==> color_of(Some(JsonView::Text(seq!['#'] + s))) == color_of(
            Some(JsonView::Text(s)),
        ),
        s.len() > 0 && s[0] != '#' && s[0] != '+' ==> (color_of(
            Some(JsonView::Text(s.push(c))),
        ) matches Some(n) ==> text::is_hex_digit(c) && color_of(Some(JsonView::Text(s))) is Some && n
            == color_of(Some(JsonView::Text(s)))->0 * 16 + text::hex_value(c)),
{
    assert((seq!['#'] + s).drop_first() =~= s);
    if s.len() > 0 && s[0] != '#' && s[0] != '+' {
        let longer = s.push(c);
        assert(longer.drop_last() =~= s);
        assert(longer[0] == s[0]);
        if color_of(Some(JsonView::Text(longer))) is Some {
            assert(longer[s.len() as int] == c);
            assert forall|i: int| 0 <= i < s.len() implies text::is_hex_digit(#[trigger] s[i]) by {
                assert(longer[i] == s[i]);
            }
        }
    }
}

} // verus!
