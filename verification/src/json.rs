//! JSON values: what tools are called with, and what they answer.

use vstd::prelude::*;
use crate::text;

verus! {

/// A JSON value. An object's fields stand in the order in which they were put in.
#[derive(Debug, PartialEq, Eq)]
pub enum Json {
    Null,
    Bool(bool),
    /// A whole number that is not negative.
    Unsigned(u64),
    /// A negative whole number.
    Negative(i64),
    /// A number with a fraction, an exponent, or more digits than fit, as it is printed.
    Fraction(String),
    Text(String),
    Array(Vec<Json>),
    Object(Vec<(String, Json)>),
}

/// A [`Json`] as a value.
#[verifier::ext_equal]
pub enum JsonView {
    Null,
    Bool(bool),
    Unsigned(u64),
    Negative(i64),
    Fraction(Seq<char>),
    Text(Seq<char>),
    Array(Seq<JsonView>),
    Object(Seq<(Seq<char>, JsonView)>),
}

/// The value of a [`Json`].
pub open spec fn json_view(j: Json) -> JsonView
    decreases j,
{
    match j {
        Json::Null => JsonView::Null,
        Json::Bool(b) => JsonView::Bool(b),
        Json::Unsigned(n) => JsonView::Unsigned(n),
        Json::Negative(n) => JsonView::Negative(n),
        Json::Fraction(s) => JsonView::Fraction(s@),
        Json::Text(s) => JsonView::Text(s@),
        Json::Array(v) => JsonView::Array(
            Seq::new(
                v@.len(),
                |i: int|
                    if 0 <= i < v@.len() {
                        json_view(v@[i])
                    } else {
                        JsonView::Null
                    },
            ),
        ),
        Json::Object(v) => JsonView::Object(
            Seq::new(
                v@.len(),
                |i: int|
                    if 0 <= i < v@.len() {
                        (v@[i].0@, json_view(v@[i].1))
                    } else {
                        (Seq::empty(), JsonView::Null)
                    },
            ),
        ),
    }
}

impl View for Json {
    type V = JsonView;

    open spec fn view(&self) -> JsonView {
        json_view(*self)
    }
}

/// The values of a sequence.
pub open spec fn json_views(v: Seq<Json>) -> Seq<JsonView> {
    v.map_values(|j: Json| j@)
}

/// The values of a sequence of fields.
pub open spec fn field_views(v: Seq<(String, Json)>) -> Seq<(Seq<char>, JsonView)> {
    v.map_values(|f: (String, Json)| (f.0@, f.1@))
}

/// An array's value is that of its elements, and an object's that of its fields.
pub broadcast proof fn lemma_json_view(j: Json)
    ensures
        #[trigger] j@ == match j {
            Json::Null => JsonView::Null,
            Json::Bool(b) => JsonView::Bool(b),
            Json::Unsigned(n) => JsonView::Unsigned(n),
            Json::Negative(n) => JsonView::Negative(n),
            Json::Fraction(s) => JsonView::Fraction(s@),
            Json::Text(s) => JsonView::Text(s@),
            Json::Array(v) => JsonView::Array(json_views(v@)),
            Json::Object(v) => JsonView::Object(field_views(v@)),
        },
{
    match j {
        Json::Array(v) => {
            assert(j@->Array_0 =~= json_views(v@));
        },
        Json::Object(v) => {
            assert(j@->Object_0 =~= field_views(v@));
        },
        _ => {},
    }
}

/// The first field with a name.
pub open spec fn field_of(fields: Seq<(Seq<char>, JsonView)>, name: Seq<char>) -> Option<JsonView>
    decreases fields.len(),
{
    if fields.len() == 0 {
        None
    } else if fields[0].0 == name {
        Some(fields[0].1)
    } else {
        field_of(fields.drop_first(), name)
    }
}

/// The field of a value: nothing where the value is no object, or has no such field.
pub open spec fn member(j: JsonView, name: Seq<char>) -> Option<JsonView> {
    match j {
        JsonView::Object(fields) => field_of(fields, name),
        _ => None,
    }
}

/// The string that an optional value is.
pub open spec fn string_of(j: Option<JsonView>) -> Option<Seq<char>> {
    match j {
        Some(JsonView::Text(s)) => Some(s),
        _ => None,
    }
}

/// The number that an optional value is, where it is whole and not negative.
pub open spec fn unsigned_of(j: Option<JsonView>) -> Option<u64> {
    match j {
        Some(JsonView::Unsigned(n)) => Some(n),
        _ => None,
    }
}

/// The truth value that an optional value is.
pub open spec fn bool_of(j: Option<JsonView>) -> Option<bool> {
    match j {
        Some(JsonView::Bool(b)) => Some(b),
        _ => None,
    }
}

/// The value of an optional reference.
pub open spec fn json_opt(j: Option<&Json>) -> Option<JsonView> {
    match j {
        Some(x) => Some(x@),
        None => None,
    }
}

impl Json {
    /// The field with a name.
    pub fn get(&self, name: &str) -> (r: Option<&Json>)
        ensures
            json_opt(r) == member(self@, name@),
            r matches Some(x) ==> decreases_to!(self => x),
    {
        broadcast use lemma_json_view;

        match self {
            Json::Object(fields) => {
                let ghost all = field_views(fields@);
                let mut i: usize = 0;
                assert(all.skip(0) =~= all);
                while i < fields.len()
                    invariant
                        i <= fields@.len(),
                        all == field_views(fields@),
                        *self == Json::Object(*fields),
                        self@ == JsonView::Object(all),
                        field_of(all, name@) == field_of(all.skip(i as int), name@),
                    decreases fields@.len() - i,
                {
                    assert(all.skip(i as int)[0] == all[i as int]);
                    assert(all.skip(i as int).drop_first() =~= all.skip(i + 1));
                    if text::str_eq(fields[i].0.as_str(), name) {
                        return Some(&fields[i].1);
                    }
                    i = i + 1;
                }
                assert(all.skip(i as int).len() == 0);
                None
            },
            _ => None,
        }
    }

    /// The string that the value is.
    pub fn as_str(&self) -> (r: Option<&str>)
        ensures
            match r {
                Some(s) => self@ == JsonView::Text(s@),
                None => !(self@ is Text),
            },
    {
        match self {
            Json::Text(s) => Some(s.as_str()),
            _ => None,
        }
    }

    /// The number that the value is.
    pub fn as_u64(&self) -> (r: Option<u64>)
        ensures
            r == unsigned_of(Some(self@)),
    {
        match self {
            Json::Unsigned(n) => Some(*n),
            _ => None,
        }
    }

    /// The truth value that the value is.
    pub fn as_bool(&self) -> (r: Option<bool>)
        ensures
            r == bool_of(Some(self@)),
    {
        match self {
            Json::Bool(b) => Some(*b),
            _ => None,
        }
    }

    /// A string value.
    pub fn string(s: &str) -> (r: Json)
        ensures
            r@ == JsonView::Text(s@),
    {
        Json::Text(s.to_owned())
    }

    /// A number written as a string, as identifiers are.
    pub fn id(n: u64) -> (r: Json)
        ensures
            r@ == id_view(n),
    {
        Json::Text(text::decimal_string(n))
    }

    /// An object with nothing but an error message.
    pub fn error(message: String) -> (r: Json)
        ensures
            r@ == error_view(message@),
    {
        broadcast use lemma_json_view;

        let mut o: Object = Object::new();
        o.put("error", Json::Text(message));
        o.done()
    }
}

/// A number written as a string.
pub open spec fn id_view(n: u64) -> JsonView {
    JsonView::Text(text::decimal(n as nat))
}

/// An object with nothing but an error message.
pub open spec fn error_view(message: Seq<char>) -> JsonView {
    JsonView::Object(seq![("error"@, JsonView::Text(message))])
}

/// An object that is being put together.
pub struct Object {
    fields: Vec<(String, Json)>,
}

impl Object {
    /// The fields so far.
    pub closed spec fn fields(&self) -> Seq<(Seq<char>, JsonView)> {
        field_views(self.fields@)
    }

    /// An object without fields.
    pub fn new() -> (r: Self)
        ensures
            r.fields() == Seq::<(Seq<char>, JsonView)>::empty(),
    {
        let r: Object = Object { fields: Vec::new() };
        assert(r.fields() =~= Seq::<(Seq<char>, JsonView)>::empty());
        r
    }

    /// Adds a field.
    pub fn put(&mut self, name: &str, value: Json)
        ensures
            final(self).fields() == old(self).fields().push((name@, value@)),
    {
        let ghost before = self.fields@;
        self.fields.push((name.to_owned(), value));
        assert(field_views(self.fields@) =~= field_views(before).push((name@, value@)));
    }

    /// The object.
    pub fn done(self) -> (r: Json)
        ensures
            r@ == JsonView::Object(self.fields()),
    {
        broadcast use lemma_json_view;

        Json::Object(self.fields)
    }
}

/// An array of identifiers.
pub fn ids(list: &Vec<u64>) -> (r: Json)
    ensures
        r@ == ids_view(list@),
{
    broadcast use lemma_json_view;

    let mut out: Vec<Json> = Vec::new();
    let mut i: usize = 0;
    while i < list.len()
        invariant
            i <= list@.len(),
            json_views(out@) == list@.take(i as int).map_values(|n: u64| id_view(n)),
        decreases list@.len() - i,
    {
        let ghost had = out@;
        out.push(Json::id(list[i]));
        assert(json_views(out@) =~= json_views(had).push(id_view(list@[i as int])));
        assert(list@.take(i + 1) =~= list@.take(i as int).push(list@[i as int]));
        assert(list@.take(i + 1).map_values(|n: u64| id_view(n)) =~= list@.take(
            i as int,
        ).map_values(|n: u64| id_view(n)).push(id_view(list@[i as int])));
        i = i + 1;
    }
    assert(list@.take(list@.len() as int) =~= list@);
    Json::Array(out)
}

/// An array of identifiers.
pub open spec fn ids_view(list: Seq<u64>) -> JsonView {
    JsonView::Array(list.map_values(|n: u64| id_view(n)))
}

/// An array of numbers.
pub fn numbers(list: &Vec<u64>) -> (r: Json)
    ensures
        r@ == numbers_view(list@),
{
    broadcast use lemma_json_view;

    let mut out: Vec<Json> = Vec::new();
    let mut i: usize = 0;
    while i < list.len()
        invariant
            i <= list@.len(),
            out@.len() == i,
            forall|k: int| 0 <= k < i ==> (#[trigger] out@[k])@ == JsonView::Unsigned(list@[k]),
        decreases list@.len() - i,
    {
        out.push(Json::Unsigned(list[i]));
        i = i + 1;
    }
    assert(json_views(out@) =~= list@.map_values(|n: u64| JsonView::Unsigned(n)));
    Json::Array(out)
}

/// An array of numbers.
pub open spec fn numbers_view(list: Seq<u64>) -> JsonView {
    JsonView::Array(list.map_values(|n: u64| JsonView::Unsigned(n)))
}

/// An array of strings.
pub fn strings(list: &Vec<String>) -> (r: Json)
    ensures
        r@ == strings_view(text::texts(list@)),
{
    broadcast use lemma_json_view;

    let mut out: Vec<Json> = Vec::new();
    let mut i: usize = 0;
    while i < list.len()
        invariant
            i <= list@.len(),
            out@.len() == i,
            forall|k: int| 0 <= k < i ==> (#[trigger] out@[k])@ == JsonView::Text(list@[k]@),
        decreases list@.len() - i,
    {
        out.push(Json::string(list[i].as_str()));
        i = i + 1;
    }
    assert(json_views(out@) =~= text::texts(list@).map_values(|s: Seq<char>| JsonView::Text(s)));
    Json::Array(out)
}

/// An array of strings.
pub open spec fn strings_view(list: Seq<Seq<char>>) -> JsonView {
    JsonView::Array(list.map_values(|s: Seq<char>| JsonView::Text(s)))
}

/// Where a field stands, counted from the front; behind all of them where there is
/// no such field.
pub open spec fn place_of(fields: Seq<(Seq<char>, JsonView)>, name: Seq<char>) -> nat
    decreases fields.len(),
{
    if fields.len() == 0 || fields[0].0 == name {
        0
    } else {
        1 + place_of(fields.skip(1), name)
    }
}

/// The fields with one set: in place of the one of that name, else behind them.
pub open spec fn put_field(
    fields: Seq<(Seq<char>, JsonView)>,
    name: Seq<char>,
    value: JsonView,
) -> Seq<(Seq<char>, JsonView)> {
    let at = place_of(fields, name) as int;
    if at < fields.len() {
        fields.update(at, (name, value))
    } else {
        fields.push((name, value))
    }
}

proof fn lemma_place(fields: Seq<(Seq<char>, JsonView)>, name: Seq<char>, at: int)
    requires
        0 <= at <= fields.len(),
        forall|k: int| 0 <= k < at ==> (#[trigger] fields[k]).0 != name,
        at < fields.len() ==> fields[at].0 == name,
    ensures
        place_of(fields, name) == at,
    decreases at,
{
    if at > 0 {
        assert(fields[0].0 != name);
        assert forall|k: int| 0 <= k < at - 1 implies (#[trigger] fields.skip(1)[k]).0 != name by {
            assert(fields.skip(1)[k] == fields[k + 1]);
        }
        lemma_place(fields.skip(1), name, at - 1);
    }
}

impl Json {
    /// An object with a field set. What is no object stays as it is.
    pub fn with_field(self, name: &str, value: Json) -> (r: Json)
        ensures
            r@ == match self@ {
                JsonView::Object(fields) => JsonView::Object(put_field(fields, name@, value@)),
                _ => self@,
            },
    {
        broadcast use lemma_json_view;

        match self {
            Json::Object(list) => {
                let ghost fields = field_views(list@);
                let mut list: Vec<(String, Json)> = list;
                let ghost had = list@;
                let mut at: usize = 0;
                while at < list.len() && !text::str_eq(list[at].0.as_str(), name)
                    invariant
                        at <= list@.len(),
                        list@ == had,
                        fields == field_views(had),
                        forall|k: int| 0 <= k < at ==> (#[trigger] fields[k]).0 != name@,
                    ensures
                        at < list@.len() ==> fields[at as int].0 == name@,
                    decreases list@.len() - at,
                {
                    assert(fields[at as int] == (list@[at as int].0@, list@[at as int].1@));
                    at = at + 1;
                }
                proof {
                    if at < list@.len() {
                        assert(fields[at as int] == (list@[at as int].0@, list@[at as int].1@));
                    }
                    lemma_place(fields, name@, at as int);
                }
                let ghost v = value@;
                if at < list.len() {
                    list.set(at, (name.to_owned(), value));
                    assert(field_views(list@) =~= fields.update(at as int, (name@, v)));
                } else {
                    list.push((name.to_owned(), value));
                    assert(field_views(list@) =~= fields.push((name@, v)));
                }
                Json::Object(list)
            },
            other => other,
        }
    }

    /// The same value once more.
    pub fn copy(&self) -> (r: Json)
        ensures
            r@ == self@,
        decreases self,
    {
        broadcast use lemma_json_view;

        match self {
            Json::Null => Json::Null,
            Json::Bool(b) => Json::Bool(*b),
            Json::Unsigned(n) => Json::Unsigned(*n),
            Json::Negative(n) => Json::Negative(*n),
            Json::Fraction(s) => Json::Fraction(s.clone()),
            Json::Text(s) => Json::Text(s.clone()),
            Json::Array(list) => {
                let mut out: Vec<Json> = Vec::new();
                let mut i: usize = 0;
                while i < list.len()
                    invariant
                        i <= list@.len(),
                        *self == Json::Array(*list),
                        out@.len() == i,
                        forall|k: int| 0 <= k < i ==> (#[trigger] out@[k])@ == list@[k]@,
                    decreases list@.len() - i,
                {
                    assert(decreases_to!(*self => self->Array_0));
                    assert(decreases_to!(self->Array_0 => list@));
                    assert(decreases_to!(list@ => list@[i as int]));
                    out.push(list[i].copy());
                    i = i + 1;
                }
                assert(json_views(out@) =~= json_views(list@));
                Json::Array(out)
            },
            Json::Object(list) => {
                let mut out: Vec<(String, Json)> = Vec::new();
                let mut i: usize = 0;
                while i < list.len()
                    invariant
                        i <= list@.len(),
                        *self == Json::Object(*list),
                        out@.len() == i,
                        forall|k: int|
                            0 <= k < i ==> (#[trigger] out@[k]).0@ == list@[k].0@ && out@[k].1@
                                == list@[k].1@,
                    decreases list@.len() - i,
                {
                    let name: String = list[i].0.clone();
                    assert(decreases_to!(*self => self->Object_0));
                    assert(decreases_to!(self->Object_0 => list@));
                    assert(decreases_to!(list@ => list@[i as int]));
                    assert(decreases_to!(list@[i as int] => list@[i as int].1));
                    let value: Json = list[i].1.copy();
                    out.push((name, value));
                    i = i + 1;
                }
                assert(field_views(out@) =~= field_views(list@));
                Json::Object(out)
            },
        }
    }
}

/// The array that an optional value is.
pub open spec fn array_of(j: Option<JsonView>) -> Option<Seq<JsonView>> {
    match j {
        Some(JsonView::Array(list)) => Some(list),
        _ => None,
    }
}

impl Json {
    /// The array that the value is.
    pub fn as_array(&self) -> (r: Option<&Vec<Json>>)
        ensures
            match r {
                Some(list) => self@ == JsonView::Array(json_views(list@)),
                None => !(self@ is Array),
            },
    {
        broadcast use lemma_json_view;

        match self {
            Json::Array(list) => Some(list),
            _ => None,
        }
    }

    /// Whether the value is an object.
    pub fn is_object(&self) -> (r: bool)
        ensures
            r == self@ is Object,
    {
        broadcast use lemma_json_view;

        matches!(self, Json::Object(_))
    }

    /// The string that a field is.
    pub fn get_string(&self, name: &str) -> (r: Option<String>)
        ensures
            text::text_opt(r) == string_of(member(self@, name@)),
    {
        match self.get(name) {
            Some(v) => match v.as_str() {
                Some(s) => Some(s.to_owned()),
                None => None,
            },
            None => None,
        }
    }
}

// ── Wrong values ────────────────────────────────────────────────────────────

/// What a value is called where another was expected.
pub open spec fn unexpected(j: JsonView) -> Seq<char> {
    match j {
        JsonView::Null => "null"@,
        JsonView::Bool(b) => if b {
            "boolean `true`"@
        } else {
            "boolean `false`"@
        },
        JsonView::Unsigned(n) => "integer `"@ + text::decimal(n as nat) + "`"@,
        JsonView::Negative(n) => "integer `"@ + text::signed_decimal(n as int) + "`"@,
        JsonView::Fraction(s) => "floating point `"@ + s + "`"@,
        JsonView::Text(s) => "string "@ + text::debug_text(s),
        JsonView::Array(_) => "sequence"@,
        JsonView::Object(_) => "map"@,
    }
}

/// What is said of a value of another type than was expected.
pub open spec fn invalid_type(j: JsonView, expected: Seq<char>) -> Seq<char> {
    "invalid type: "@ + unexpected(j) + ", expected "@ + expected
}

/// What is said of a value of the right type that is not among those expected.
pub open spec fn invalid_value(j: JsonView, expected: Seq<char>) -> Seq<char> {
    "invalid value: "@ + unexpected(j) + ", expected "@ + expected
}

impl Json {
    /// What the value is called where another was expected.
    fn unexpected_text(&self) -> (r: String)
        ensures
            r@ == unexpected(self@),
    {
        broadcast use lemma_json_view;

        match self {
            Json::Null => "null".to_owned(),
            Json::Bool(b) => if *b {
                "boolean `true`".to_owned()
            } else {
                "boolean `false`".to_owned()
            },
            Json::Unsigned(n) => {
                let mut out: String = "integer `".to_owned();
                let digits: String = text::decimal_string(*n);
                out.append(digits.as_str());
                out.append("`");
                out
            },
            Json::Negative(n) => {
                let mut out: String = "integer `".to_owned();
                let digits: String = text::signed_string(*n);
                out.append(digits.as_str());
                out.append("`");
                out
            },
            Json::Fraction(s) => {
                let mut out: String = "floating point `".to_owned();
                out.append(s.as_str());
                out.append("`");
                out
            },
            Json::Text(s) => {
                let mut out: String = "string ".to_owned();
                let shown: String = text::debug_string(s.as_str());
                out.append(shown.as_str());
                out
            },
            Json::Array(_) => "sequence".to_owned(),
            Json::Object(_) => "map".to_owned(),
        }
    }

    /// What is said of the value where one of another type was expected.
    pub fn wrong_type(&self, expected: &str) -> (r: String)
        ensures
            r@ == invalid_type(self@, expected@),
    {
        let mut out: String = "invalid type: ".to_owned();
        let found: String = self.unexpected_text();
        out.append(found.as_str());
        out.append(", expected ");
        out.append(expected);
        out
    }

    /// What is said of the value where it is of the right type, but another was
    /// expected.
    pub fn wrong_value(&self, expected: &str) -> (r: String)
        ensures
            r@ == invalid_value(self@, expected@),
    {
        let mut out: String = "invalid value: ".to_owned();
        let found: String = self.unexpected_text();
        out.append(found.as_str());
        out.append(", expected ");
        out.append(expected);
        out
    }
}

// ── What holds of values ────────────────────────────────────────────────────

/// What is put under a name is found under it, and what stands under other names stays.
pub proof fn law_what_is_put_is_found(
    fields: Seq<(Seq<char>, JsonView)>,
    name: Seq<char>,
    value: JsonView,
    other: Seq<char>,
)
    ensures
        field_of(put_field(fields, name, value), name) == Some(value),
        other != name ==> field_of(put_field(fields, name, value), other) == field_of(
            fields,
            other,
        ),
    decreases fields.len(),
{
    let put = put_field(fields, name, value);
    if fields.len() == 0 {
        assert(put[0] == (name, value));
        assert(put.drop_first() =~= fields);
    } else if fields[0].0 == name {
        assert(put[0] == (name, value));
        assert(put.drop_first() =~= fields.drop_first());
    } else {
        law_what_is_put_is_found(fields.drop_first(), name, value, other);
        assert(fields.drop_first() =~= fields.skip(1));
        assert(put[0] == fields[0]);
        assert(put.drop_first() =~= put_field(fields.drop_first(), name, value));
    }
}

/// What is found under a name stands there, and nothing is found under a name that no
/// field has.
pub proof fn law_fields_are_found_by_name(
    fields: Seq<(Seq<char>, JsonView)>,
    name: Seq<char>,
    value: JsonView,
)
    ensures
        field_of(fields, name) == Some(value) ==> fields.contains((name, value)),
        field_of(fields, name) is None <==> forall|i: int|
            0 <= i < fields.len() ==> (#[trigger] fields[i]).0 != name,
        member(JsonView::Object(fields), name) == field_of(fields, name),
    decreases fields.len(),
{
    if fields.len() > 0 {
        let rest = fields.drop_first();
        law_fields_are_found_by_name(rest, name, value);
        if fields[0].0 == name {
            assert(fields.contains(fields[0]));
        } else {
            if field_of(rest, name) == Some(value) {
                let i = choose|i: int| 0 <= i < rest.len() && rest[i] == (name, value);
                assert(fields[i + 1] == rest[i]);
            }
            if field_of(rest, name) is None {
                assert forall|i: int| 0 <= i < fields.len() implies (#[trigger] fields[i]).0
                    != name by {
                    if i > 0 {
                        assert(rest[i - 1] == fields[i]);
                    }
                }
            } else {
                let i = choose|i: int| 0 <= i < rest.len() && !((#[trigger] rest[i]).0 != name);
                assert(fields[i + 1] == rest[i]);
            }
        }
    }
}

/// An error is an object that says what went wrong under `error`; an id is written in
/// digits, so that no reader rounds it.
pub proof fn law_errors_and_ids_are_written_so(message: Seq<char>, n: u64, list: Seq<u64>, i: int)
    requires
        0 <= i < list.len(),
    ensures
        member(error_view(message), "error"@) == Some(JsonView::Text(message)),
        id_view(n) == JsonView::Text(text::decimal(n as nat)),
        ids_view(list) matches JsonView::Array(v) && v.len() == list.len() && v[i]
            == JsonView::Text(text::decimal(list[i] as nat)),
        numbers_view(list) matches JsonView::Array(v) && v.len() == list.len() && v[i]
            == JsonView::Unsigned(list[i]),
{
    let fields = seq![("error"@, JsonView::Text(message))];
    assert(fields[0].0 == "error"@);
}

/// A value is taken for a text, a number, a truth value or a list only where it is one.
pub proof fn law_values_are_taken_for_what_they_are(j: Option<JsonView>)
    ensures
        match j {
            Some(JsonView::Text(s)) => string_of(j) == Some(s),
            _ => string_of(j) is None,
        },
        match j {
            Some(JsonView::Unsigned(n)) => unsigned_of(j) == Some(n),
            _ => unsigned_of(j) is None,
        },
        match j {
            Some(JsonView::Bool(b)) => bool_of(j) == Some(b),
            _ => bool_of(j) is None,
        },
        match j {
            Some(JsonView::Array(list)) => array_of(j) == Some(list),
            _ => array_of(j) is None,
        },
{
}

/// A value that was not expected is called by what it is, and what was expected is told.
pub proof fn law_unexpected_values_are_named(j: JsonView, expected: Seq<char>)
    ensures
        match j {
            JsonView::Null => unexpected(j) == "null"@,
            JsonView::Bool(true) => unexpected(j) == "boolean `true`"@,
            JsonView::Bool(false) => unexpected(j) == "boolean `false`"@,
            JsonView::Unsigned(n) => unexpected(j) == "integer `"@ + text::decimal(n as nat) + "`"@,
            JsonView::Negative(n) => unexpected(j) == "integer `"@ + text::signed_decimal(n as int)
                + "`"@,
            JsonView::Fraction(s) => unexpected(j) == "floating point `"@ + s + "`"@,
            JsonView::Text(s) => unexpected(j) == "string "@ + text::debug_text(s),
            JsonView::Array(_) => unexpected(j) == "sequence"@,
            JsonView::Object(_) => unexpected(j) == "map"@,
        },
        invalid_type(j, expected) == "invalid type: "@ + unexpected(j) + ", expected "@ + expected,
        invalid_value(j, expected) == "invalid value: "@ + unexpected(j) + ", expected "@ + expected,
{
}

} // verus!
