//! Searching the messages of a guild.

use vstd::prelude::*;
use crate::clock;
use crate::gate::OutboundGate;
use crate::json::{self, Json, JsonView, Object};
use crate::mcp::tools::messaging::{self, message_json, MessageInfo};
use crate::text;

verus! {

// ── Errors ──────────────────────────────────────────────────────────────────

/// What is wrong with a search.
#[derive(Debug, PartialEq, Eq)]
pub enum SearchError {
    NoFilters,
    InvalidDate(String),
    InvalidLimit(u64),
    InvalidOffset(u64),
}

impl SearchError {
    /// What is said of it.
    pub open spec fn message(&self) -> Seq<char> {
        match self {
            SearchError::NoFilters => "at least one search filter is required (content, author_id, mentions, has, before, after, or channel_id)"@,
            SearchError::InvalidDate(d) => invalid_date(d@),
            SearchError::InvalidLimit(v) => invalid_limit(*v),
            SearchError::InvalidOffset(v) => invalid_offset(*v),
        }
    }

    /// What is said of it.
    pub fn to_string(&self) -> (r: String)
        ensures
            r@ == self.message(),
    {
        match self {
            SearchError::NoFilters => "at least one search filter is required (content, author_id, mentions, has, before, after, or channel_id)".to_owned(),
            SearchError::InvalidDate(d) => {
                let mut out: String = "invalid date '".to_owned();
                out.append(d.as_str());
                out.append("': expected YYYY-MM-DD");
                out
            },
            SearchError::InvalidLimit(v) => {
                let mut out: String = "search limit must be 1..=25, got ".to_owned();
                let n: String = text::decimal_string(*v);
                out.append(n.as_str());
                out
            },
            SearchError::InvalidOffset(v) => {
                let mut out: String = "search offset must be 0..=9975, got ".to_owned();
                let n: String = text::decimal_string(*v);
                out.append(n.as_str());
                out
            },
        }
    }
}

/// What is said of a date that cannot be searched by.
pub open spec fn invalid_date(date: Seq<char>) -> Seq<char> {
    "invalid date '"@ + date + "': expected YYYY-MM-DD"@
}

/// What is said of a limit that is out of range.
pub open spec fn invalid_limit(v: u64) -> Seq<char> {
    "search limit must be 1..=25, got "@ + text::decimal(v as nat)
}

/// What is said of an offset that is out of range.
pub open spec fn invalid_offset(v: u64) -> Seq<char> {
    "search offset must be 0..=9975, got "@ + text::decimal(v as nat)
}

// ── Limits ──────────────────────────────────────────────────────────────────

/// How many messages are asked for: 1 to 25.
#[derive(Clone, Copy, Debug, PartialEq, Eq, Structural)]
pub struct SearchLimit(u8);

impl SearchLimit {
    /// The number.
    pub closed spec fn value(self) -> u8 {
        self.0
    }

    /// The number.
    pub fn get(self) -> (r: u8)
        ensures
            r == self.value(),
    {
        self.0
    }

    /// A number of messages, where it is in range.
    pub fn try_from(v: u64) -> (r: Result<SearchLimit, SearchError>)
        ensures
            match r {
                Ok(l) => 1 <= v <= 25 && l.value() == v,
                Err(e) => !(1 <= v <= 25) && e == SearchError::InvalidLimit(v),
            },
    {
        if v < 1 || v > 25 {
            return Err(SearchError::InvalidLimit(v));
        }
        Ok(SearchLimit(v as u8))
    }
}

impl Default for SearchLimit {
    fn default() -> (r: Self)
        ensures
            r.value() == 25,
    {
        SearchLimit(25)
    }
}

/// How many messages are passed over: at most 9975.
#[derive(Clone, Copy, Debug, PartialEq, Eq, Structural)]
pub struct SearchOffset(u16);

impl SearchOffset {
    /// The number.
    pub closed spec fn value(self) -> u16 {
        self.0
    }

    /// The number.
    pub fn get(self) -> (r: u16)
        ensures
            r == self.value(),
    {
        self.0
    }

    /// A number of messages, where it is in range.
    pub fn try_from(v: u64) -> (r: Result<SearchOffset, SearchError>)
        ensures
            match r {
                Ok(o) => v <= 9975 && o.value() == v,
                Err(e) => v > 9975 && e == SearchError::InvalidOffset(v),
            },
    {
        if v > 9975 {
            return Err(SearchError::InvalidOffset(v));
        }
        Ok(SearchOffset(v as u16))
    }
}

impl Default for SearchOffset {
    fn default() -> (r: Self)
        ensures
            r.value() == 0,
    {
        SearchOffset(0)
    }
}

// ── Times ───────────────────────────────────────────────────────────────────

/// The start of 2015 in UTC, from which Discord counts, in milliseconds since the
/// Unix epoch.
pub const DISCORD_EPOCH_MS: i64 = 1_420_070_400_000;

/// A bound in time: the id of a message, or a date, by its day number.
#[derive(Clone, Copy, Debug, PartialEq, Eq, Structural)]
pub enum SearchTimestamp {
    Snowflake(u64),
    Date(i32),
}

/// The milliseconds from Discord's start to the start of a day, which may lie before.
pub open spec fn discord_ms(day: int) -> int {
    (day - clock::EPOCH_DAY) * 86_400_000 - DISCORD_EPOCH_MS
}

/// The smallest id that a message can have which was posted so many milliseconds
/// after Discord's start: their low 42 bits, moved up by 22.
pub open spec fn snowflake_at(ms: int) -> u64 {
    ((ms * 0x40_0000) % 0x1_0000_0000_0000_0000) as u64
}

impl SearchTimestamp {
    /// Whether a date is one of the calendar.
    pub open spec fn wf(&self) -> bool {
        match self {
            SearchTimestamp::Snowflake(_) => true,
            SearchTimestamp::Date(day) => clock::FIRST_DAY <= *day <= clock::LAST_DAY,
        }
    }

    /// The id that stands for the bound, or what is said of it.
    pub open spec fn bound(&self) -> Result<u64, Seq<char>> {
        match self {
            SearchTimestamp::Snowflake(id) => Ok(*id),
            SearchTimestamp::Date(day) => if discord_ms(*day as int) < 0 {
                Err(
                    clock::date_text(*day as int)
                        + ": date is before Discord epoch (2015-01-01)"@,
                )
            } else {
                Ok(snowflake_at(discord_ms(*day as int)))
            },
        }
    }

    /// The id that stands for the bound: that of a message posted at the start of
    /// the day.
    pub fn to_snowflake(&self) -> (r: Result<u64, SearchError>)
        requires
            self.wf(),
        ensures
            match r {
                Ok(id) => self.bound() == Ok::<u64, Seq<char>>(id),
                Err(e) => e matches SearchError::InvalidDate(d) && self.bound() == Err::<
                    u64,
                    Seq<char>,
                >(d@),
            },
    {
        match self {
            SearchTimestamp::Snowflake(id) => Ok(*id),
            SearchTimestamp::Date(day) => {
                let days: i64 = *day as i64 - clock::EPOCH_DAY as i64;
                let ms: i64 = days * 86_400_000 - DISCORD_EPOCH_MS;
                if ms < 0 {
                    let mut shown: String = clock::print_date(*day);
                    shown.append(": date is before Discord epoch (2015-01-01)");
                    return Err(SearchError::InvalidDate(shown));
                }
                let low: u64 = ms as u64 % 0x400_0000_0000;
                Ok(low * 0x40_0000)
            },
        }
    }
}

/// The day number of the date that `chrono` reads in a text as `%Y-%m-%d`.
pub uninterp spec fn plain_date(text: Seq<char>) -> Option<i32>;

/// `chrono::NaiveDate::parse_from_str` with the format `%Y-%m-%d`: reads a date. One
/// that is read lies within `chrono`'s range.
#[verifier::external_body]
fn read_plain_date(text: &str) -> (r: Option<i32>)
    ensures
        r == plain_date(text@),
        r matches Some(day) ==> clock::FIRST_DAY <= day <= clock::LAST_DAY,
{
    chrono::NaiveDate::parse_from_str(text, "%Y-%m-%d").ok().map(
        |d| chrono::Datelike::num_days_from_ce(&d),
    )
}

/// The bound in time that a value stands for, or what is said of it.
pub open spec fn timestamp_of(value: JsonView) -> Result<SearchTimestamp, Seq<char>> {
    match value {
        JsonView::Unsigned(v) => if v == 0 {
            Err("snowflake ID must be nonzero"@)
        } else {
            Ok(SearchTimestamp::Snowflake(v))
        },
        JsonView::Text(s) => match text::parsed_u64(s) {
            Some(v) => if v == 0 {
                Err("snowflake ID must be nonzero"@)
            } else {
                Ok(SearchTimestamp::Snowflake(v))
            },
            None => match plain_date(s) {
                Some(day) => Ok(SearchTimestamp::Date(day)),
                None => Err("expected snowflake ID or YYYY-MM-DD, got '"@ + s + "'"@),
            },
        },
        _ => Err(json::invalid_type(value, "a snowflake ID (integer/string) or YYYY-MM-DD date"@)),
    }
}

/// Reads a bound in time: the id of a message, as a number or in digits, or a date.
pub fn parse_timestamp(value: &Json) -> (r: Result<SearchTimestamp, String>)
    ensures
        match r {
            Ok(t) => timestamp_of(value@) == Ok::<SearchTimestamp, Seq<char>>(t) && t.wf(),
            Err(e) => timestamp_of(value@) == Err::<SearchTimestamp, Seq<char>>(e@),
        },
{
    if let Some(v) = value.as_u64() {
        if v == 0 {
            return Err("snowflake ID must be nonzero".to_owned());
        }
        return Ok(SearchTimestamp::Snowflake(v));
    }
    if let Some(s) = value.as_str() {
        if let Some(v) = text::parse_u64(s) {
            if v == 0 {
                return Err("snowflake ID must be nonzero".to_owned());
            }
            return Ok(SearchTimestamp::Snowflake(v));
        }
        return match read_plain_date(s) {
            Some(day) => Ok(SearchTimestamp::Date(day)),
            None => {
                let mut e: String = "expected snowflake ID or YYYY-MM-DD, got '".to_owned();
                e.append(s);
                e.append("'");
                Err(e)
            },
        };
    }
    Err(value.wrong_type("a snowflake ID (integer/string) or YYYY-MM-DD date"))
}

/// Later days have larger ids, as long as ids last: to the year 2154.
pub proof fn law_snowflakes_follow_dates(earlier: int, later: int)
    requires
        earlier < later,
        0 <= discord_ms(earlier),
        discord_ms(later) < 0x400_0000_0000,
    ensures
        snowflake_at(discord_ms(earlier)) < snowflake_at(discord_ms(later)),
{
}

// ── Words ───────────────────────────────────────────────────────────────────

/// What a message has to hold.
#[derive(Clone, Copy, Debug, PartialEq, Eq, Structural)]
pub enum SearchHas {
    Link,
    Embed,
    File,
    Video,
    Image,
    Sound,
    Sticker,
}

/// The word for it.
pub open spec fn has_text(x: SearchHas) -> Seq<char> {
    match x {
        SearchHas::Link => "link"@,
        SearchHas::Embed => "embed"@,
        SearchHas::File => "file"@,
        SearchHas::Video => "video"@,
        SearchHas::Image => "image"@,
        SearchHas::Sound => "sound"@,
        SearchHas::Sticker => "sticker"@,
    }
}

/// What a word stands for.
pub open spec fn has_named(word: Seq<char>) -> Option<SearchHas> {
    if word == "link"@ {
        Some(SearchHas::Link)
    } else if word == "embed"@ {
        Some(SearchHas::Embed)
    } else if word == "file"@ {
        Some(SearchHas::File)
    } else if word == "video"@ {
        Some(SearchHas::Video)
    } else if word == "image"@ {
        Some(SearchHas::Image)
    } else if word == "sound"@ {
        Some(SearchHas::Sound)
    } else if word == "sticker"@ {
        Some(SearchHas::Sticker)
    } else {
        None
    }
}

impl SearchHas {
    /// The word for it.
    pub fn to_string(&self) -> (r: String)
        ensures
            r@ == has_text(*self),
    {
        match self {
            SearchHas::Link => "link".to_owned(),
            SearchHas::Embed => "embed".to_owned(),
            SearchHas::File => "file".to_owned(),
            SearchHas::Video => "video".to_owned(),
            SearchHas::Image => "image".to_owned(),
            SearchHas::Sound => "sound".to_owned(),
            SearchHas::Sticker => "sticker".to_owned(),
        }
    }

    /// What a word stands for.
    pub fn parse(s: &str) -> (r: Option<SearchHas>)
        ensures
            r == has_named(s@),
            r matches Some(x) ==> s@ == has_text(x),
    {
        if text::str_eq(s, "link") {
            return Some(SearchHas::Link);
        }
        if text::str_eq(s, "embed") {
            return Some(SearchHas::Embed);
        }
        if text::str_eq(s, "file") {
            return Some(SearchHas::File);
        }
        if text::str_eq(s, "video") {
            return Some(SearchHas::Video);
        }
        if text::str_eq(s, "image") {
            return Some(SearchHas::Image);
        }
        if text::str_eq(s, "sound") {
            return Some(SearchHas::Sound);
        }
        if text::str_eq(s, "sticker") {
            return Some(SearchHas::Sticker);
        }
        None
    }
}

/// What results are sorted by.
#[derive(Clone, Copy, Debug, PartialEq, Eq, Structural)]
pub enum SortBy {
    Timestamp,
    Relevance,
}

/// The word for it.
pub open spec fn sort_text(x: SortBy) -> Seq<char> {
    match x {
        SortBy::Timestamp => "timestamp"@,
        SortBy::Relevance => "relevance"@,
    }
}

/// What a word stands for.
pub open spec fn sort_named(word: Seq<char>) -> Option<SortBy> {
    if word == "timestamp"@ {
        Some(SortBy::Timestamp)
    } else if word == "relevance"@ {
        Some(SortBy::Relevance)
    } else {
        None
    }
}

impl SortBy {
    /// The word for it.
    pub fn to_string(&self) -> (r: String)
        ensures
            r@ == sort_text(*self),
    {
        match self {
            SortBy::Timestamp => "timestamp".to_owned(),
            SortBy::Relevance => "relevance".to_owned(),
        }
    }

    /// What a word stands for.
    pub fn parse(s: &str) -> (r: Option<SortBy>)
        ensures
            r == sort_named(s@),
            r matches Some(x) ==> s@ == sort_text(x),
    {
        if text::str_eq(s, "timestamp") {
            return Some(SortBy::Timestamp);
        }
        if text::str_eq(s, "relevance") {
            return Some(SortBy::Relevance);
        }
        None
    }
}

/// Which results come first.
#[derive(Clone, Copy, Debug, PartialEq, Eq, Structural)]
pub enum SortOrder {
    Asc,
    Desc,
}

/// The word for it.
pub open spec fn order_text(x: SortOrder) -> Seq<char> {
    match x {
        SortOrder::Asc => "asc"@,
        SortOrder::Desc => "desc"@,
    }
}

/// What a word stands for.
pub open spec fn order_named(word: Seq<char>) -> Option<SortOrder> {
    if word == "asc"@ {
        Some(SortOrder::Asc)
    } else if word == "desc"@ {
        Some(SortOrder::Desc)
    } else {
        None
    }
}

impl SortOrder {
    /// The word for it.
    pub fn to_string(&self) -> (r: String)
        ensures
            r@ == order_text(*self),
    {
        match self {
            SortOrder::Asc => "asc".to_owned(),
            SortOrder::Desc => "desc".to_owned(),
        }
    }

    /// What a word stands for.
    pub fn parse(s: &str) -> (r: Option<SortOrder>)
        ensures
            r == order_named(s@),
            r matches Some(x) ==> s@ == order_text(x),
    {
        if text::str_eq(s, "asc") {
            return Some(SortOrder::Asc);
        }
        if text::str_eq(s, "desc") {
            return Some(SortOrder::Desc);
        }
        None
    }
}

// ── Ids ─────────────────────────────────────────────────────────────────────

/// How many digits a text ends in.
pub open spec fn tail_digits(s: Seq<char>) -> nat
    decreases s.len(),
{
    if s.len() > 0 && text::is_digit(s.last()) {
        tail_digits(s.drop_last()) + 1
    } else {
        0
    }
}

/// A message as it is passed on. One that ends in a place, as in ` at line 3 column 4`,
/// is taken to be about that place: its numbers are written anew, and a place in line
/// zero, which is none, is left out.
pub open spec fn passed_on(message: Seq<char>) -> Seq<char> {
    let column_at = message.len() - tail_digits(message);
    let line_end = column_at - " column "@.len();
    let line_at = line_end - tail_digits(message.take(line_end));
    let start = line_at - " at line "@.len();
    if text::occurs_at(message, " column "@, line_end) && text::occurs_at(
        message,
        " at line "@,
        start,
    ) {
        match (
            text::parsed_u64(message.subrange(line_at, line_end)),
            text::parsed_u64(message.skip(column_at)),
        ) {
            (Some(line), Some(column)) => if line == 0 {
                message.take(start)
            } else {
                message.take(start) + " at line "@ + text::decimal(line as nat) + " column "@
                    + text::decimal(column as nat)
            },
            _ => message,
        }
    } else {
        message
    }
}

/// Where the digits start that the first `end` characters end in.
fn digits_start(chars: &Vec<char>, end: usize) -> (r: usize)
    requires
        end <= chars@.len(),
    ensures
        r <= end,
        r == end - tail_digits(chars@.take(end as int)),
{
    let mut i: usize = end;
    while i > 0 && '0' <= chars[i - 1] && chars[i - 1] <= '9'
        invariant
            i <= end <= chars@.len(),
            tail_digits(chars@.take(end as int)) == tail_digits(chars@.take(i as int)) + (end - i),
        decreases i,
    {
        assert(chars@.take(i as int).drop_last() =~= chars@.take(i - 1));
        i = i - 1;
    }
    i
}

fn pass_on(message: String) -> (r: String)
    ensures
        r@ == passed_on(message@),
{
    proof {
        reveal_strlit(" column ");
        reveal_strlit(" at line ");
    }
    let chars: Vec<char> = text::chars_of(message.as_str());
    let column_word: Vec<char> = text::chars_of(" column ");
    let line_word: Vec<char> = text::chars_of(" at line ");
    assert(chars@.take(chars@.len() as int) =~= chars@);
    let column_at: usize = digits_start(&chars, chars.len());
    if column_at < 8 {
        return message;
    }
    let line_end: usize = column_at - 8;
    if !text::chars_at(&chars, &column_word, line_end) {
        return message;
    }
    let line_at: usize = digits_start(&chars, line_end);
    if line_at < 9 {
        return message;
    }
    let start: usize = line_at - 9;
    if !text::chars_at(&chars, &line_word, start) {
        return message;
    }
    let line: String = text::string_between(&chars, line_at, line_end);
    let column: String = text::string_between(&chars, column_at, chars.len());
    assert(chars@.subrange(column_at as int, chars@.len() as int) =~= chars@.skip(
        column_at as int,
    ));
    match (text::parse_u64(line.as_str()), text::parse_u64(column.as_str())) {
        (Some(line), Some(column)) => {
            let mut out: String = text::string_between(&chars, 0, start);
            assert(chars@.subrange(0, start as int) =~= chars@.take(start as int));
            if line != 0 {
                out.append(" at line ");
                let digits: String = text::decimal_string(line);
                out.append(digits.as_str());
                out.append(" column ");
                let digits: String = text::decimal_string(column);
                out.append(digits.as_str());
            }
            out
        },
        _ => message,
    }
}

/// The id that an element of a list stands for, or what is said of it.
pub open spec fn element_id(value: JsonView) -> Result<u64, Seq<char>> {
    let number = match value {
        JsonView::Unsigned(n) => Ok(n),
        JsonView::Negative(_) | JsonView::Fraction(_) => Err("ID must be a positive integer"@),
        JsonView::Text(s) => match text::parsed_u64(s) {
            Some(n) => Ok(n),
            None => Err(passed_on("invalid ID: "@ + s)),
        },
        _ => Err("ID must be a string or number"@),
    };
    match number {
        Ok(n) => if n == 0 {
            Err("snowflake ID must be nonzero"@)
        } else {
            Ok(n)
        },
        Err(e) => Err(e),
    }
}

fn parse_element_id(value: &Json) -> (r: Result<u64, String>)
    ensures
        match r {
            Ok(n) => element_id(value@) == Ok::<u64, Seq<char>>(n),
            Err(e) => element_id(value@) == Err::<u64, Seq<char>>(e@),
        },
{
    broadcast use json::lemma_json_view;

    let n: u64 = match value {
        Json::Unsigned(n) => *n,
        Json::Negative(_) | Json::Fraction(_) => {
            return Err("ID must be a positive integer".to_owned());
        },
        Json::Text(s) => match text::parse_u64(s.as_str()) {
            Some(n) => n,
            None => {
                let mut e: String = "invalid ID: ".to_owned();
                e.append(s.as_str());
                return Err(pass_on(e));
            },
        },
        _ => {
            return Err("ID must be a string or number".to_owned());
        },
    };
    if n == 0 {
        return Err("snowflake ID must be nonzero".to_owned());
    }
    Ok(n)
}

/// The ids in a list, up to the first element that is none.
pub open spec fn element_ids(values: Seq<JsonView>) -> Result<Seq<u64>, Seq<char>>
    decreases values.len(),
{
    if values.len() == 0 {
        Ok(Seq::empty())
    } else {
        match element_ids(values.drop_last()) {
            Err(e) => Err(e),
            Ok(before) => match element_id(values.last()) {
                Err(e) => Err(e),
                Ok(n) => Ok(before.push(n)),
            },
        }
    }
}

proof fn lemma_ids_error(values: Seq<JsonView>, n: int)
    requires
        0 <= n <= values.len(),
        element_ids(values.take(n)) is Err,
    ensures
        element_ids(values) == element_ids(values.take(n)),
    decreases values.len(),
{
    if n < values.len() {
        assert(values.drop_last().take(n) =~= values.take(n));
        lemma_ids_error(values.drop_last(), n);
    } else {
        assert(values.take(n) =~= values);
    }
}

/// The ids that a value stands for: one, a list of them, or none, or what is said of
/// it. A single id in digits is held to be one where it is nothing but digits.
pub open spec fn ids_of(value: JsonView) -> Result<Seq<u64>, Seq<char>> {
    match value {
        JsonView::Unsigned(n) => if n == 0 {
            Err("snowflake ID must be nonzero"@)
        } else {
            Ok(seq![n])
        },
        JsonView::Text(s) => match text::parsed_u64(s) {
            Some(n) => if n == 0 {
                Err("snowflake ID must be nonzero"@)
            } else {
                Ok(seq![n])
            },
            None => Err(text::number_problem(s)),
        },
        JsonView::Array(list) => element_ids(list),
        JsonView::Null => Ok(Seq::empty()),
        _ => Err(
            json::invalid_type(value, "a snowflake ID or array of snowflake IDs (string or number)"@),
        ),
    }
}

/// Reads one id, a list of ids, or none.
pub fn parse_ids(value: &Json) -> (r: Result<Vec<u64>, String>)
    ensures
        match r {
            Ok(list) => ids_of(value@) == Ok::<Seq<u64>, Seq<char>>(list@),
            Err(e) => ids_of(value@) == Err::<Seq<u64>, Seq<char>>(e@),
        },
{
    broadcast use json::lemma_json_view;

    let n: u64 = match value {
        Json::Unsigned(n) => *n,
        Json::Text(s) => match text::parse_u64(s.as_str()) {
            Some(n) => n,
            None => {
                return Err(text::number_problem_text(s.as_str()).to_owned());
            },
        },
        Json::Array(list) => {
            let ghost all = json::json_views(list@);
            let mut out: Vec<u64> = Vec::new();
            let mut i: usize = 0;
            assert(out@ =~= Seq::empty());
            while i < list.len()
                invariant
                    i <= list@.len(),
                    all == json::json_views(list@),
                    value@ == JsonView::Array(all),
                    element_ids(all.take(i as int)) == Ok::<Seq<u64>, Seq<char>>(out@),
                decreases list@.len() - i,
            {
                proof {
                    assert(all.take(i + 1).drop_last() =~= all.take(i as int));
                    assert(all.take(i + 1).last() == list@[i as int]@);
                }
                match parse_element_id(&list[i]) {
                    Ok(n) => {
                        out.push(n);
                    },
                    Err(e) => {
                        proof {
                            lemma_ids_error(all, i + 1);
                        }
                        return Err(e);
                    },
                }
                i = i + 1;
            }
            assert(all.take(all.len() as int) =~= all);
            return Ok(out);
        },
        Json::Null => {
            let out: Vec<u64> = Vec::new();
            assert(out@ =~= Seq::empty());
            return Ok(out);
        },
        _ => {
            return Err(
                value.wrong_type("a snowflake ID or array of snowflake IDs (string or number)"),
            );
        },
    };
    if n == 0 {
        return Err("snowflake ID must be nonzero".to_owned());
    }
    let out: Vec<u64> = vec![n];
    assert(out@ =~= seq![n]);
    Ok(out)
}

// ── Parameters ──────────────────────────────────────────────────────────────

/// What is searched for.
#[derive(Debug, PartialEq, Eq)]
pub struct SearchParams {
    pub content: Option<String>,
    pub author_ids: Vec<u64>,
    pub mentions: Vec<u64>,
    pub has: Vec<SearchHas>,
    /// Only messages before this.
    pub before: Option<SearchTimestamp>,
    /// Only messages after this.
    pub after: Option<SearchTimestamp>,
    pub channel_ids: Vec<u64>,
    pub pinned: Option<bool>,
    pub sort_by: Option<SortBy>,
    pub sort_order: Option<SortOrder>,
    pub limit: Option<SearchLimit>,
    pub offset: Option<SearchOffset>,
}

/// A [`SearchParams`] as a value.
#[verifier::ext_equal]
pub struct ParamsView {
    pub content: Option<Seq<char>>,
    pub author_ids: Seq<u64>,
    pub mentions: Seq<u64>,
    pub has: Seq<SearchHas>,
    pub before: Option<SearchTimestamp>,
    pub after: Option<SearchTimestamp>,
    pub channel_ids: Seq<u64>,
    pub pinned: Option<bool>,
    pub sort_by: Option<SortBy>,
    pub sort_order: Option<SortOrder>,
    pub limit: Option<u8>,
    pub offset: Option<u16>,
}

impl View for SearchParams {
    type V = ParamsView;

    open spec fn view(&self) -> ParamsView {
        ParamsView {
            content: text::text_opt(self.content),
            author_ids: self.author_ids@,
            mentions: self.mentions@,
            has: self.has@,
            before: self.before,
            after: self.after,
            channel_ids: self.channel_ids@,
            pinned: self.pinned,
            sort_by: self.sort_by,
            sort_order: self.sort_order,
            limit: match self.limit {
                Some(l) => Some(l.value()),
                None => None,
            },
            offset: match self.offset {
                Some(o) => Some(o.value()),
                None => None,
            },
        }
    }
}

/// Whether anything is searched for: an order alone is nothing.
pub open spec fn filters(p: ParamsView) -> bool {
    ||| p.content is Some
    ||| p.author_ids.len() > 0
    ||| p.mentions.len() > 0
    ||| p.has.len() > 0
    ||| p.before is Some
    ||| p.after is Some
    ||| p.channel_ids.len() > 0
    ||| p.pinned is Some
}

/// A value that is there: neither missing nor `null`.
pub open spec fn present(value: Option<JsonView>) -> Option<JsonView> {
    match value {
        Some(JsonView::Null) => None,
        other => other,
    }
}

/// A bound in time that may not be there.
pub open spec fn optional_timestamp(value: Option<JsonView>) -> Result<
    Option<SearchTimestamp>,
    Seq<char>,
> {
    match present(value) {
        None => Ok(None),
        Some(v) => match timestamp_of(v) {
            Ok(t) => Ok(Some(t)),
            Err(e) => Err(e),
        },
    }
}

/// Ids that may not be there.
pub open spec fn optional_ids(value: Option<JsonView>) -> Result<Seq<u64>, Seq<char>> {
    match value {
        None => Ok(Seq::empty()),
        Some(v) => ids_of(v),
    }
}

/// The name of the variant that a value is: the value is that name, or an object whose
/// one member has it.
pub open spec fn variant_name(value: JsonView) -> Result<Seq<char>, Seq<char>> {
    match value {
        JsonView::Text(s) => Ok(s),
        JsonView::Object(fields) => if fields.len() == 1 {
            Ok(fields[0].0)
        } else {
            Err(json::invalid_value(value, "map with a single key"@))
        },
        _ => Err(json::invalid_type(value, "string or map"@)),
    }
}

/// What a value stands for as one of the variants `choices`, where its name is that of
/// `named`, or what is said of it. What an object has under the name is `null`.
pub open spec fn variant_of<T>(value: JsonView, named: Option<T>, choices: Seq<char>) -> Result<
    T,
    Seq<char>,
> {
    match variant_name(value) {
        Err(e) => Err(e),
        Ok(name) => match named {
            None => Err("unknown variant `"@ + name + "`, expected "@ + choices),
            Some(x) => match value {
                JsonView::Object(fields) if !(fields[0].1 is Null) => Err(
                    json::invalid_type(fields[0].1, "unit"@),
                ),
                _ => Ok(x),
            },
        },
    }
}

/// What a message has to hold, or what is said of it.
pub open spec fn has_of(value: JsonView) -> Result<SearchHas, Seq<char>> {
    variant_of(
        value,
        has_named(variant_name(value)->Ok_0),
        "one of `link`, `embed`, `file`, `video`, `image`, `sound`, `sticker`"@,
    )
}

/// What messages have to hold, up to the first element that says none of it.
pub open spec fn all_has(values: Seq<JsonView>) -> Result<Seq<SearchHas>, Seq<char>>
    decreases values.len(),
{
    if values.len() == 0 {
        Ok(Seq::empty())
    } else {
        match all_has(values.drop_last()) {
            Err(e) => Err(e),
            Ok(before) => match has_of(values.last()) {
                Err(e) => Err(e),
                Ok(h) => Ok(before.push(h)),
            },
        }
    }
}

proof fn lemma_all_has(values: Seq<JsonView>, n: int)
    requires
        0 <= n <= values.len(),
        all_has(values.take(n)) is Err,
    ensures
        all_has(values) == all_has(values.take(n)),
    decreases values.len(),
{
    if n < values.len() {
        assert(values.drop_last().take(n) =~= values.take(n));
        lemma_all_has(values.drop_last(), n);
    } else {
        assert(values.take(n) =~= values);
    }
}

/// What messages have to hold, or what is said of it.
pub open spec fn optional_has(value: Option<JsonView>) -> Result<Seq<SearchHas>, Seq<char>> {
    match value {
        None => Ok(Seq::empty()),
        Some(JsonView::Array(list)) => all_has(list),
        Some(v) => Err(json::invalid_type(v, "a sequence"@)),
    }
}

/// What messages are sorted by, or what is said of it.
pub open spec fn optional_sort(value: Option<JsonView>) -> Result<Option<SortBy>, Seq<char>> {
    match present(value) {
        None => Ok(None),
        Some(v) => match variant_of(
            v,
            sort_named(variant_name(v)->Ok_0),
            "`timestamp` or `relevance`"@,
        ) {
            Ok(x) => Ok(Some(x)),
            Err(e) => Err(e),
        },
    }
}

/// Which messages come first, or what is said of it.
pub open spec fn optional_order(value: Option<JsonView>) -> Result<Option<SortOrder>, Seq<char>> {
    match present(value) {
        None => Ok(None),
        Some(v) => match variant_of(v, order_named(variant_name(v)->Ok_0), "`asc` or `desc`"@) {
            Ok(x) => Ok(Some(x)),
            Err(e) => Err(e),
        },
    }
}

/// What is said of a value that is not a whole number from zero on.
pub open spec fn not_unsigned(value: JsonView) -> Seq<char> {
    match value {
        JsonView::Negative(_) => json::invalid_value(value, "u64"@),
        _ => json::invalid_type(value, "u64"@),
    }
}

/// How many messages are asked for, or what is said of it.
pub open spec fn optional_limit(value: Option<JsonView>) -> Result<Option<u8>, Seq<char>> {
    match present(value) {
        None => Ok(None),
        Some(JsonView::Unsigned(v)) => if 1 <= v <= 25 {
            Ok(Some(v as u8))
        } else {
            Err(invalid_limit(v))
        },
        Some(v) => Err(not_unsigned(v)),
    }
}

/// How many messages are passed over, or what is said of it.
pub open spec fn optional_offset(value: Option<JsonView>) -> Result<Option<u16>, Seq<char>> {
    match present(value) {
        None => Ok(None),
        Some(JsonView::Unsigned(v)) => if v <= 9975 {
            Ok(Some(v as u16))
        } else {
            Err(invalid_offset(v))
        },
        Some(v) => Err(not_unsigned(v)),
    }
}

/// The text that is searched for, or what is said of it.
pub open spec fn optional_content(value: Option<JsonView>) -> Result<Option<Seq<char>>, Seq<char>> {
    match present(value) {
        None => Ok(None),
        Some(JsonView::Text(s)) => Ok(Some(s)),
        Some(v) => Err(json::invalid_type(v, "a string"@)),
    }
}

/// Whether only pinned messages count, or what is said of it.
pub open spec fn optional_pinned(value: Option<JsonView>) -> Result<Option<bool>, Seq<char>> {
    match present(value) {
        None => Ok(None),
        Some(JsonView::Bool(b)) => Ok(Some(b)),
        Some(v) => Err(json::invalid_type(v, "a boolean"@)),
    }
}

/// An argument: the member of this name, or, in a list of arguments, the element at
/// this place.
pub open spec fn argument(args: JsonView, name: Seq<char>, place: nat) -> Option<JsonView> {
    match args {
        JsonView::Array(list) => if place < list.len() {
            Some(list[place as int])
        } else {
            None
        },
        _ => json::member(args, name),
    }
}

/// What is said of an argument that cannot be read.
pub open spec fn problem_of<T>(read: Result<T, Seq<char>>) -> Option<Seq<char>> {
    match read {
        Ok(_) => None,
        Err(e) => Some(e),
    }
}

/// The first problem of several.
pub open spec fn first_problem(problems: Seq<Option<Seq<char>>>) -> Option<Seq<char>>
    decreases problems.len(),
{
    if problems.len() == 0 {
        None
    } else {
        match first_problem(problems.drop_last()) {
            Some(e) => Some(e),
            None => problems.last(),
        }
    }
}

proof fn lemma_first_problem(problems: Seq<Option<Seq<char>>>, n: int)
    requires
        0 <= n <= problems.len(),
    ensures
        first_problem(problems.take(n)) matches Some(e) ==> first_problem(problems) == Some(e),
        first_problem(problems) is None ==> forall|i: int|
            0 <= i < problems.len() ==> #[trigger] problems[i] is None,
    decreases problems.len(),
{
    if problems.len() > 0 {
        let rest = problems.drop_last();
        lemma_first_problem(rest, if n < problems.len() { n } else { rest.len() as int });
        if n < problems.len() {
            assert(rest.take(n) =~= problems.take(n));
        } else {
            assert(problems.take(n) =~= problems);
        }
        assert forall|i: int| first_problem(problems) is None && 0 <= i < problems.len() implies
            #[trigger] problems[i] is None by {
            if i < rest.len() {
                assert(rest[i] is None);
            }
        }
    } else {
        assert(problems.take(n) =~= problems);
    }
}

/// What is wrong with each of the arguments: those of an object are taken in the order
/// of their names, those of a list in the order of their places.
pub open spec fn problems_of(args: JsonView) -> Seq<Option<Seq<char>>> {
    let content = optional_content(argument(args, "content"@, 0));
    let author_ids = optional_ids(argument(args, "author_id"@, 1));
    let mentions = optional_ids(argument(args, "mentions"@, 2));
    let has = optional_has(argument(args, "has"@, 3));
    let before = optional_timestamp(argument(args, "before"@, 4));
    let after = optional_timestamp(argument(args, "after"@, 5));
    let channel_ids = optional_ids(argument(args, "channel_id"@, 6));
    let pinned = optional_pinned(argument(args, "pinned"@, 7));
    let sort_by = optional_sort(argument(args, "sort_by"@, 8));
    let sort_order = optional_order(argument(args, "sort_order"@, 9));
    let limit = optional_limit(argument(args, "limit"@, 10));
    let offset = optional_offset(argument(args, "offset"@, 11));
    if args is Array {
        seq![
            problem_of(content),
            problem_of(author_ids),
            problem_of(mentions),
            problem_of(has),
            problem_of(before),
            problem_of(after),
            problem_of(channel_ids),
            problem_of(pinned),
            problem_of(sort_by),
            problem_of(sort_order),
            problem_of(limit),
            problem_of(offset),
        ]
    } else {
        seq![
            problem_of(after),
            problem_of(author_ids),
            problem_of(before),
            problem_of(channel_ids),
            problem_of(content),
            problem_of(has),
            problem_of(limit),
            problem_of(mentions),
            problem_of(offset),
            problem_of(pinned),
            problem_of(sort_by),
            problem_of(sort_order),
        ]
    }
}

/// What is searched for, or the first thing that is wrong with the arguments. They are
/// the members of an object, where arguments of other names are passed over, or the
/// elements of a list, the last of which may be left out.
pub open spec fn params_of(args: JsonView) -> Result<ParamsView, Seq<char>> {
    let content = optional_content(argument(args, "content"@, 0));
    let author_ids = optional_ids(argument(args, "author_id"@, 1));
    let mentions = optional_ids(argument(args, "mentions"@, 2));
    let has = optional_has(argument(args, "has"@, 3));
    let before = optional_timestamp(argument(args, "before"@, 4));
    let after = optional_timestamp(argument(args, "after"@, 5));
    let channel_ids = optional_ids(argument(args, "channel_id"@, 6));
    let pinned = optional_pinned(argument(args, "pinned"@, 7));
    let sort_by = optional_sort(argument(args, "sort_by"@, 8));
    let sort_order = optional_order(argument(args, "sort_order"@, 9));
    let limit = optional_limit(argument(args, "limit"@, 10));
    let offset = optional_offset(argument(args, "offset"@, 11));
    if !(args is Object || args is Array) {
        Err(json::invalid_type(args, "struct SearchParams"@))
    } else if let Some(e) = first_problem(problems_of(args)) {
        Err(e)
    } else if args is Array && args->Array_0.len() > 12 {
        Err(
            "invalid length "@ + text::decimal(args->Array_0.len())
                + ", expected fewer elements in array"@,
        )
    } else {
        Ok(
            ParamsView {
                content: content->Ok_0,
                author_ids: author_ids->Ok_0,
                mentions: mentions->Ok_0,
                has: has->Ok_0,
                before: before->Ok_0,
                after: after->Ok_0,
                channel_ids: channel_ids->Ok_0,
                pinned: pinned->Ok_0,
                sort_by: sort_by->Ok_0,
                sort_order: sort_order->Ok_0,
                limit: limit->Ok_0,
                offset: offset->Ok_0,
            },
        )
    }
}

fn find_argument<'a>(args: &'a Json, name: &str, place: usize) -> (r: Option<&'a Json>)
    ensures
        json::json_opt(r) == argument(args@, name@, place as nat),
{
    broadcast use json::lemma_json_view;

    match args {
        Json::Array(list) => if place < list.len() {
            assert(json::json_views(list@)[place as int] == list@[place as int]@);
            Some(&list[place])
        } else {
            None
        },
        _ => args.get(name),
    }
}

fn present_value<'a>(value: Option<&'a Json>) -> (r: Option<&'a Json>)
    ensures
        json::json_opt(r) == present(json::json_opt(value)),
{
    broadcast use json::lemma_json_view;

    match value {
        Some(v) => match v {
            Json::Null => None,
            _ => Some(v),
        },
        None => None,
    }
}

fn read_variant_name(value: &Json) -> (r: Result<&str, String>)
    ensures
        match r {
            Ok(name) => variant_name(value@) == Ok::<Seq<char>, Seq<char>>(name@),
            Err(e) => variant_name(value@) == Err::<Seq<char>, Seq<char>>(e@),
        },
{
    broadcast use json::lemma_json_view;

    match value {
        Json::Text(s) => Ok(s.as_str()),
        Json::Object(fields) => {
            if fields.len() == 1 {
                assert(json::field_views(fields@)[0] == (fields@[0].0@, fields@[0].1@));
                return Ok(fields[0].0.as_str());
            }
            Err(value.wrong_value("map with a single key"))
        },
        _ => Err(value.wrong_type("string or map")),
    }
}

/// Ends the reading of a variant, once the name `name` was looked up.
fn finish_variant<T>(value: &Json, name: &str, named: Option<T>, choices: &str) -> (r: Result<
    T,
    String,
>)
    requires
        variant_name(value@) == Ok::<Seq<char>, Seq<char>>(name@),
    ensures
        match r {
            Ok(x) => variant_of(value@, named, choices@) == Ok::<T, Seq<char>>(x),
            Err(e) => variant_of(value@, named, choices@) == Err::<T, Seq<char>>(e@),
        },
{
    broadcast use json::lemma_json_view;

    match named {
        None => {
            let mut e: String = "unknown variant `".to_owned();
            e.append(name);
            e.append("`, expected ");
            e.append(choices);
            Err(e)
        },
        Some(x) => {
            if let Json::Object(fields) = value {
                if fields.len() == 1 {
                    assert(json::field_views(fields@)[0] == (fields@[0].0@, fields@[0].1@));
                    match &fields[0].1 {
                        Json::Null => {},
                        other => {
                            return Err(other.wrong_type("unit"));
                        },
                    }
                }
            }
            Ok(x)
        },
    }
}

fn read_timestamp(value: Option<&Json>) -> (r: Result<Option<SearchTimestamp>, String>)
    ensures
        match r {
            Ok(t) => optional_timestamp(json::json_opt(value)) == Ok::<
                Option<SearchTimestamp>,
                Seq<char>,
            >(t) && (t matches Some(x) ==> x.wf()),
            Err(e) => optional_timestamp(json::json_opt(value)) == Err::<
                Option<SearchTimestamp>,
                Seq<char>,
            >(e@),
        },
{
    match present_value(value) {
        Some(v) => match parse_timestamp(v) {
            Ok(t) => Ok(Some(t)),
            Err(e) => Err(e),
        },
        None => Ok(None),
    }
}

fn read_ids(value: Option<&Json>) -> (r: Result<Vec<u64>, String>)
    ensures
        match r {
            Ok(list) => optional_ids(json::json_opt(value)) == Ok::<Seq<u64>, Seq<char>>(
                list@,
            ),
            Err(e) => optional_ids(json::json_opt(value)) == Err::<Seq<u64>, Seq<char>>(e@),
        },
{
    match value {
        Some(v) => parse_ids(v),
        None => {
            let out: Vec<u64> = Vec::new();
            assert(out@ =~= Seq::empty());
            Ok(out)
        },
    }
}

fn read_has_variant(value: &Json) -> (r: Result<SearchHas, String>)
    ensures
        match r {
            Ok(h) => has_of(value@) == Ok::<SearchHas, Seq<char>>(h),
            Err(e) => has_of(value@) == Err::<SearchHas, Seq<char>>(e@),
        },
{
    let name: &str = match read_variant_name(value) {
        Ok(name) => name,
        Err(e) => {
            return Err(e);
        },
    };
    finish_variant(
        value,
        name,
        SearchHas::parse(name),
        "one of `link`, `embed`, `file`, `video`, `image`, `sound`, `sticker`",
    )
}

fn read_has(value: Option<&Json>) -> (r: Result<Vec<SearchHas>, String>)
    ensures
        match r {
            Ok(list) => optional_has(json::json_opt(value)) == Ok::<
                Seq<SearchHas>,
                Seq<char>,
            >(list@),
            Err(e) => optional_has(json::json_opt(value)) == Err::<
                Seq<SearchHas>,
                Seq<char>,
            >(e@),
        },
{
    let mut out: Vec<SearchHas> = Vec::new();
    assert(out@ =~= Seq::empty());
    let found: &Json = match value {
        Some(v) => v,
        None => {
            return Ok(out);
        },
    };
    let list: &Vec<Json> = match found.as_array() {
        Some(list) => list,
        None => {
            return Err(found.wrong_type("a sequence"));
        },
    };
    let ghost all = json::json_views(list@);
    let mut i: usize = 0;
    while i < list.len()
        invariant
            i <= list@.len(),
            all == json::json_views(list@),
            json::json_opt(value) == Some(JsonView::Array(all)),
            all_has(all.take(i as int)) == Ok::<Seq<SearchHas>, Seq<char>>(out@),
        decreases list@.len() - i,
    {
        proof {
            assert(all.take(i + 1).drop_last() =~= all.take(i as int));
            assert(all.take(i + 1).last() == list@[i as int]@);
        }
        match read_has_variant(&list[i]) {
            Ok(h) => {
                out.push(h);
            },
            Err(e) => {
                proof {
                    lemma_all_has(all, i + 1);
                }
                return Err(e);
            },
        }
        i = i + 1;
    }
    assert(all.take(all.len() as int) =~= all);
    Ok(out)
}

fn read_content(value: Option<&Json>) -> (r: Result<Option<String>, String>)
    ensures
        match r {
            Ok(s) => optional_content(json::json_opt(value)) == Ok::<
                Option<Seq<char>>,
                Seq<char>,
            >(text::text_opt(s)),
            Err(e) => optional_content(json::json_opt(value)) == Err::<
                Option<Seq<char>>,
                Seq<char>,
            >(e@),
        },
{
    match present_value(value) {
        None => Ok(None),
        Some(v) => match v.as_str() {
            Some(s) => Ok(Some(s.to_owned())),
            None => Err(v.wrong_type("a string")),
        },
    }
}

fn read_pinned(value: Option<&Json>) -> (r: Result<Option<bool>, String>)
    ensures
        match r {
            Ok(b) => optional_pinned(json::json_opt(value)) == Ok::<
                Option<bool>,
                Seq<char>,
            >(b),
            Err(e) => optional_pinned(json::json_opt(value)) == Err::<
                Option<bool>,
                Seq<char>,
            >(e@),
        },
{
    match present_value(value) {
        None => Ok(None),
        Some(v) => match v.as_bool() {
            Some(b) => Ok(Some(b)),
            None => Err(v.wrong_type("a boolean")),
        },
    }
}

fn read_sort_by(value: Option<&Json>) -> (r: Result<Option<SortBy>, String>)
    ensures
        match r {
            Ok(x) => optional_sort(json::json_opt(value)) == Ok::<
                Option<SortBy>,
                Seq<char>,
            >(x),
            Err(e) => optional_sort(json::json_opt(value)) == Err::<
                Option<SortBy>,
                Seq<char>,
            >(e@),
        },
{
    if let Some(v) = present_value(value) {
        let name: &str = match read_variant_name(v) {
            Ok(name) => name,
            Err(e) => {
                return Err(e);
            },
        };
        return match finish_variant(v, name, SortBy::parse(name), "`timestamp` or `relevance`") {
            Ok(x) => Ok(Some(x)),
            Err(e) => Err(e),
        };
    }
    Ok(None)
}

fn read_sort_order(value: Option<&Json>) -> (r: Result<Option<SortOrder>, String>)
    ensures
        match r {
            Ok(x) => optional_order(json::json_opt(value)) == Ok::<
                Option<SortOrder>,
                Seq<char>,
            >(x),
            Err(e) => optional_order(json::json_opt(value)) == Err::<
                Option<SortOrder>,
                Seq<char>,
            >(e@),
        },
{
    if let Some(v) = present_value(value) {
        let name: &str = match read_variant_name(v) {
            Ok(name) => name,
            Err(e) => {
                return Err(e);
            },
        };
        return match finish_variant(v, name, SortOrder::parse(name), "`asc` or `desc`") {
            Ok(x) => Ok(Some(x)),
            Err(e) => Err(e),
        };
    }
    Ok(None)
}

fn unsigned_problem(value: &Json) -> (r: String)
    ensures
        r@ == not_unsigned(value@),
{
    broadcast use json::lemma_json_view;

    match value {
        Json::Negative(_) => value.wrong_value("u64"),
        _ => value.wrong_type("u64"),
    }
}

fn read_limit(value: Option<&Json>) -> (r: Result<Option<SearchLimit>, String>)
    ensures
        match r {
            Ok(None) => optional_limit(json::json_opt(value)) == Ok::<
                Option<u8>,
                Seq<char>,
            >(None),
            Ok(Some(l)) => optional_limit(json::json_opt(value)) == Ok::<
                Option<u8>,
                Seq<char>,
            >(Some(l.value())),
            Err(e) => optional_limit(json::json_opt(value)) == Err::<
                Option<u8>,
                Seq<char>,
            >(e@),
        },
{
    match present_value(value) {
        None => Ok(None),
        Some(v) => match v.as_u64() {
            Some(n) => match SearchLimit::try_from(n) {
                Ok(l) => Ok(Some(l)),
                Err(e) => Err(e.to_string()),
            },
            None => Err(unsigned_problem(v)),
        },
    }
}

fn read_offset(value: Option<&Json>) -> (r: Result<Option<SearchOffset>, String>)
    ensures
        match r {
            Ok(None) => optional_offset(json::json_opt(value)) == Ok::<
                Option<u16>,
                Seq<char>,
            >(None),
            Ok(Some(o)) => optional_offset(json::json_opt(value)) == Ok::<
                Option<u16>,
                Seq<char>,
            >(Some(o.value())),
            Err(e) => optional_offset(json::json_opt(value)) == Err::<
                Option<u16>,
                Seq<char>,
            >(e@),
        },
{
    match present_value(value) {
        None => Ok(None),
        Some(v) => match v.as_u64() {
            Some(n) => match SearchOffset::try_from(n) {
                Ok(o) => Ok(Some(o)),
                Err(e) => Err(e.to_string()),
            },
            None => Err(unsigned_problem(v)),
        },
    }
}

fn problem<T>(read: &Result<T, String>) -> (r: Option<String>)
    ensures
        match *read {
            Ok(_) => r is None,
            Err(e) => r matches Some(x) && x@ == e@,
        },
{
    match read {
        Ok(_) => None,
        Err(e) => Some(e.as_str().to_owned()),
    }
}

fn find_problem(problems: Vec<Option<String>>) -> (r: Option<String>)
    ensures
        text::text_opt(r) == first_problem(text::text_opts(problems@)),
{
    let ghost all = text::text_opts(problems@);
    let mut i: usize = 0;
    while i < problems.len()
        invariant
            i <= problems@.len(),
            all == text::text_opts(problems@),
            first_problem(all.take(i as int)) is None,
        decreases problems@.len() - i,
    {
        proof {
            assert(all.take(i + 1).drop_last() =~= all.take(i as int));
            assert(all.take(i + 1).last() == text::text_opt(problems@[i as int]));
        }
        if let Some(e) = &problems[i] {
            proof {
                lemma_first_problem(all, i + 1);
            }
            return Some(e.as_str().to_owned());
        }
        i = i + 1;
    }
    assert(all.take(all.len() as int) =~= all);
    None
}

impl SearchParams {
    /// Bounds in time are dates of the calendar.
    pub open spec fn wf(&self) -> bool {
        &&& self.before matches Some(t) ==> t.wf()
        &&& self.after matches Some(t) ==> t.wf()
    }

    /// Reads the arguments of a search.
    pub fn from_json(args: &Json) -> (r: Result<SearchParams, String>)
        ensures
            match r {
                Ok(p) => params_of(args@) == Ok::<ParamsView, Seq<char>>(p@) && p.wf(),
                Err(e) => params_of(args@) == Err::<ParamsView, Seq<char>>(e@),
            },
    {
        broadcast use json::lemma_json_view;

        let count: Option<usize> = match args {
            Json::Array(list) => Some(list.len()),
            _ => None,
        };
        if count.is_none() && !args.is_object() {
            return Err(args.wrong_type("struct SearchParams"));
        }
        let content: Result<Option<String>, String> = read_content(
            find_argument(args, "content", 0),
        );
        let author_ids: Result<Vec<u64>, String> = read_ids(
            find_argument(args, "author_id", 1),
        );
        let mentions: Result<Vec<u64>, String> = read_ids(
            find_argument(args, "mentions", 2),
        );
        let has: Result<Vec<SearchHas>, String> = read_has(
            find_argument(args, "has", 3),
        );
        let before: Result<Option<SearchTimestamp>, String> = read_timestamp(
            find_argument(args, "before", 4),
        );
        let after: Result<Option<SearchTimestamp>, String> = read_timestamp(
            find_argument(args, "after", 5),
        );
        let channel_ids: Result<Vec<u64>, String> = read_ids(
            find_argument(args, "channel_id", 6),
        );
        let pinned: Result<Option<bool>, String> = read_pinned(
            find_argument(args, "pinned", 7),
        );
        let sort_by: Result<Option<SortBy>, String> = read_sort_by(
            find_argument(args, "sort_by", 8),
        );
        let sort_order: Result<Option<SortOrder>, String> = read_sort_order(
            find_argument(args, "sort_order", 9),
        );
        let limit: Result<Option<SearchLimit>, String> = read_limit(
            find_argument(args, "limit", 10),
        );
        let offset: Result<Option<SearchOffset>, String> = read_offset(
            find_argument(args, "offset", 11),
        );
        let problems: Vec<Option<String>> = if count.is_some() {
            vec![
                problem(&content),
                problem(&author_ids),
                problem(&mentions),
                problem(&has),
                problem(&before),
                problem(&after),
                problem(&channel_ids),
                problem(&pinned),
                problem(&sort_by),
                problem(&sort_order),
                problem(&limit),
                problem(&offset),
            ]
        } else {
            vec![
                problem(&after),
                problem(&author_ids),
                problem(&before),
                problem(&channel_ids),
                problem(&content),
                problem(&has),
                problem(&limit),
                problem(&mentions),
                problem(&offset),
                problem(&pinned),
                problem(&sort_by),
                problem(&sort_order),
            ]
        };
        let ghost said = problems_of(args@);
        assert(text::text_opts(problems@) =~= said);
        if let Some(e) = find_problem(problems) {
            return Err(e);
        }
        if let Some(n) = count {
            if n > 12 {
                let mut e: String = "invalid length ".to_owned();
                let len: String = text::decimal_string(n as u64);
                e.append(len.as_str());
                e.append(", expected fewer elements in array");
                return Err(e);
            }
        }
        proof {
            lemma_first_problem(said, 0);
            assert(said[0] is None);
            assert(said[1] is None);
            assert(said[2] is None);
            assert(said[3] is None);
            assert(said[4] is None);
            assert(said[5] is None);
            assert(said[6] is None);
            assert(said[7] is None);
            assert(said[8] is None);
            assert(said[9] is None);
            assert(said[10] is None);
            assert(said[11] is None);
        }
        let content: Option<String> = match content {
            Ok(x) => x,
            Err(e) => {
                return Err(e);
            },
        };
        let author_ids: Vec<u64> = match author_ids {
            Ok(x) => x,
            Err(e) => {
                return Err(e);
            },
        };
        let mentions: Vec<u64> = match mentions {
            Ok(x) => x,
            Err(e) => {
                return Err(e);
            },
        };
        let has: Vec<SearchHas> = match has {
            Ok(x) => x,
            Err(e) => {
                return Err(e);
            },
        };
        let before: Option<SearchTimestamp> = match before {
            Ok(x) => x,
            Err(e) => {
                return Err(e);
            },
        };
        let after: Option<SearchTimestamp> = match after {
            Ok(x) => x,
            Err(e) => {
                return Err(e);
            },
        };
        let channel_ids: Vec<u64> = match channel_ids {
            Ok(x) => x,
            Err(e) => {
                return Err(e);
            },
        };
        let pinned: Option<bool> = match pinned {
            Ok(x) => x,
            Err(e) => {
                return Err(e);
            },
        };
        let sort_by: Option<SortBy> = match sort_by {
            Ok(x) => x,
            Err(e) => {
                return Err(e);
            },
        };
        let sort_order: Option<SortOrder> = match sort_order {
            Ok(x) => x,
            Err(e) => {
                return Err(e);
            },
        };
        let limit: Option<SearchLimit> = match limit {
            Ok(x) => x,
            Err(e) => {
                return Err(e);
            },
        };
        let offset: Option<SearchOffset> = match offset {
            Ok(x) => x,
            Err(e) => {
                return Err(e);
            },
        };
        let p: SearchParams = SearchParams {
            content,
            author_ids,
            mentions,
            has,
            before,
            after,
            channel_ids,
            pinned,
            sort_by,
            sort_order,
            limit,
            offset,
        };
        assert(params_of(args@)->Ok_0 =~= p@);
        Ok(p)
    }

    /// Whether anything is searched for.
    pub fn has_any_filter(&self) -> (r: bool)
        ensures
            r == filters(self@),
    {
        self.content.is_some() || self.author_ids.len() > 0 || self.mentions.len() > 0
            || self.has.len() > 0 || self.before.is_some() || self.after.is_some()
            || self.channel_ids.len() > 0 || self.pinned.is_some()
    }
}

// ── The query ───────────────────────────────────────────────────────────────

/// A query: names and values, in order.
pub open spec fn query_views(query: Seq<(&'static str, String)>) -> Seq<(Seq<char>, Seq<char>)> {
    query.map_values(|q: (&'static str, String)| (q.0@, q.1@))
}

/// A name for each of several values.
pub open spec fn each(name: Seq<char>, values: Seq<Seq<char>>) -> Seq<(Seq<char>, Seq<char>)> {
    values.map_values(|v: Seq<char>| (name, v))
}

/// A name for a value that may not be there.
pub open spec fn once(name: Seq<char>, value: Option<Seq<char>>) -> Seq<(Seq<char>, Seq<char>)> {
    match value {
        Some(v) => seq![(name, v)],
        None => Seq::empty(),
    }
}

/// The digits of ids.
pub open spec fn digits_of(ids: Seq<u64>) -> Seq<Seq<char>> {
    ids.map_values(|id: u64| text::decimal(id as nat))
}

/// The query that a search comes to, or what is said of it.
pub open spec fn query_of(p: ParamsView) -> Result<Seq<(Seq<char>, Seq<char>)>, Seq<char>> {
    let max_id = match p.before {
        Some(t) => Some(t.bound()),
        None => None,
    };
    let min_id = match p.after {
        Some(t) => Some(t.bound()),
        None => None,
    };
    if !filters(p) {
        Err(
            "at least one search filter is required (content, author_id, mentions, has, before, after, or channel_id)"@,
        )
    } else if max_id matches Some(Err(_)) {
        Err(invalid_date(max_id->0->Err_0))
    } else if min_id matches Some(Err(_)) {
        Err(invalid_date(min_id->0->Err_0))
    } else {
        Ok(
            once("content"@, p.content) + each("author_id"@, digits_of(p.author_ids)) + each(
                "mentions"@,
                digits_of(p.mentions),
            ) + each("has"@, p.has.map_values(|h: SearchHas| has_text(h))) + once(
                "max_id"@,
                match max_id {
                    Some(id) => Some(text::decimal(id->Ok_0 as nat)),
                    None => None,
                },
            ) + once(
                "min_id"@,
                match min_id {
                    Some(id) => Some(text::decimal(id->Ok_0 as nat)),
                    None => None,
                },
            ) + each("channel_id"@, digits_of(p.channel_ids)) + once(
                "pinned"@,
                match p.pinned {
                    Some(b) => Some(
                        if b {
                            "true"@
                        } else {
                            "false"@
                        },
                    ),
                    None => None,
                },
            ) + once(
                "sort_by"@,
                match p.sort_by {
                    Some(s) => Some(sort_text(s)),
                    None => None,
                },
            ) + once(
                "sort_order"@,
                match p.sort_order {
                    Some(o) => Some(order_text(o)),
                    None => None,
                },
            ) + seq![("limit"@, text::decimal(page_size(p)))] + once(
                "offset"@,
                if page_start(p) > 0 {
                    Some(text::decimal(page_start(p)))
                } else {
                    None
                },
            ),
        )
    }
}

/// How many messages are asked for.
pub open spec fn page_size(p: ParamsView) -> nat {
    match p.limit {
        Some(l) => l as nat,
        None => 25,
    }
}

/// How many messages are passed over.
pub open spec fn page_start(p: ParamsView) -> nat {
    match p.offset {
        Some(o) => o as nat,
        None => 0,
    }
}

fn push_pair(query: &mut Vec<(&'static str, String)>, name: &'static str, value: String)
    ensures
        query_views(final(query)@) == query_views(old(query)@) + seq![(name@, value@)],
{
    let ghost before = query@;
    query.push((name, value));
    assert(query_views(query@) =~= query_views(before) + seq![(name@, value@)]);
}

fn push_ids(query: &mut Vec<(&'static str, String)>, name: &'static str, ids: &Vec<u64>)
    ensures
        query_views(final(query)@) == query_views(old(query)@) + each(name@, digits_of(ids@)),
{
    let ghost before = query_views(query@);
    let ghost all = each(name@, digits_of(ids@));
    let mut i: usize = 0;
    assert(before =~= before + all.take(0));
    while i < ids.len()
        invariant
            i <= ids@.len(),
            all == each(name@, digits_of(ids@)),
            query_views(query@) == before + all.take(i as int),
        decreases ids@.len() - i,
    {
        push_pair(query, name, text::decimal_string(ids[i]));
        proof {
            assert(all[i as int] == (name@, text::decimal(ids@[i as int] as nat)));
            assert(before + all.take(i as int) + seq![all[i as int]] =~= before + all.take(i + 1));
        }
        i = i + 1;
    }
    assert(all.take(all.len() as int) =~= all);
}

fn push_has(query: &mut Vec<(&'static str, String)>, has: &Vec<SearchHas>)
    ensures
        query_views(final(query)@) == query_views(old(query)@) + each(
            "has"@,
            has@.map_values(|h: SearchHas| has_text(h)),
        ),
{
    let ghost before = query_views(query@);
    let ghost all = each("has"@, has@.map_values(|h: SearchHas| has_text(h)));
    let mut i: usize = 0;
    assert(before =~= before + all.take(0));
    while i < has.len()
        invariant
            i <= has@.len(),
            all == each("has"@, has@.map_values(|h: SearchHas| has_text(h))),
            query_views(query@) == before + all.take(i as int),
        decreases has@.len() - i,
    {
        push_pair(query, "has", has[i].to_string());
        proof {
            assert(all[i as int] == ("has"@, has_text(has@[i as int])));
            assert(before + all.take(i as int) + seq![all[i as int]] =~= before + all.take(i + 1));
        }
        i = i + 1;
    }
    assert(all.take(all.len() as int) =~= all);
}

fn push_once(query: &mut Vec<(&'static str, String)>, name: &'static str, value: Option<String>)
    ensures
        query_views(final(query)@) == query_views(old(query)@) + once(name@, text::text_opt(value)),
{
    let ghost before = query_views(query@);
    match value {
        Some(v) => {
            push_pair(query, name, v);
        },
        None => {
            assert(before =~= before + Seq::empty());
        },
    }
}

fn bound_digits(t: &Option<SearchTimestamp>) -> (r: Result<Option<String>, SearchError>)
    requires
        *t matches Some(x) ==> x.wf(),
    ensures
        match *t {
            None => r == Ok::<Option<String>, SearchError>(None),
            Some(x) => match x.bound() {
                Ok(id) => r matches Ok(Some(s)) && s@ == text::decimal(id as nat),
                Err(e) => r matches Err(err) && err.message() == invalid_date(e),
            },
        },
{
    match t {
        None => Ok(None),
        Some(x) => match x.to_snowflake() {
            Ok(id) => Ok(Some(text::decimal_string(id))),
            Err(e) => Err(e),
        },
    }
}

impl SearchParams {
    /// The query that a search comes to, in Discord's order, or what is answered.
    pub fn query(&self) -> (r: Result<Vec<(&'static str, String)>, Json>)
        requires
            self.wf(),
        ensures
            match r {
                Ok(q) => query_of(self@) == Ok::<Seq<(Seq<char>, Seq<char>)>, Seq<char>>(
                    query_views(q@),
                ),
                Err(e) => query_of(self@) matches Err(m) && e@ == json::error_view(m),
            },
            r matches Ok(q) ==> {
                &&& query_views(q@).contains(("pinned"@, "true"@)) <==> self.pinned == Some(true)
                &&& query_views(q@).contains(("pinned"@, "false"@)) <==> self.pinned == Some(false)
            },
    {
        if !self.has_any_filter() {
            return Err(Json::error(SearchError::NoFilters.to_string()));
        }
        let max_id: Option<String> = match bound_digits(&self.before) {
            Ok(d) => d,
            Err(e) => {
                return Err(Json::error(e.to_string()));
            },
        };
        let min_id: Option<String> = match bound_digits(&self.after) {
            Ok(d) => d,
            Err(e) => {
                return Err(Json::error(e.to_string()));
            },
        };
        let content: Option<String> = match &self.content {
            Some(c) => Some(c.clone()),
            None => None,
        };
        let pinned: Option<String> = match self.pinned {
            Some(true) => Some("true".to_owned()),
            Some(false) => Some("false".to_owned()),
            None => None,
        };
        let sort_by: Option<String> = match &self.sort_by {
            Some(s) => Some(s.to_string()),
            None => None,
        };
        let sort_order: Option<String> = match &self.sort_order {
            Some(o) => Some(o.to_string()),
            None => None,
        };
        let limit: u8 = self.limit_value();
        let offset: u16 = self.offset_value();
        let start: Option<String> = if offset > 0 {
            Some(text::decimal_string(offset as u64))
        } else {
            None
        };
        let mut q: Vec<(&'static str, String)> = Vec::new();
        assert(query_views(q@) =~= Seq::empty());
        push_once(&mut q, "content", content);
        push_ids(&mut q, "author_id", &self.author_ids);
        push_ids(&mut q, "mentions", &self.mentions);
        push_has(&mut q, &self.has);
        push_once(&mut q, "max_id", max_id);
        push_once(&mut q, "min_id", min_id);
        push_ids(&mut q, "channel_id", &self.channel_ids);
        push_once(&mut q, "pinned", pinned);
        push_once(&mut q, "sort_by", sort_by);
        push_once(&mut q, "sort_order", sort_order);
        push_pair(&mut q, "limit", text::decimal_string(limit as u64));
        push_once(&mut q, "offset", start);
        assert(query_of(self@)->Ok_0 =~= query_views(q@));
        proof {
            law_pinned_messages_are_asked_for(self@, query_views(q@), Seq::empty());
        }
        Ok(q)
    }

    /// How many messages are asked for.
    pub fn limit_value(&self) -> (r: u8)
        ensures
            r == page_size(self@),
    {
        match self.limit {
            Some(l) => l.get(),
            None => 25,
        }
    }

    /// How many messages are passed over.
    pub fn offset_value(&self) -> (r: u16)
        ensures
            r == page_start(self@),
    {
        match self.offset {
            Some(o) => o.get(),
            None => 0,
        }
    }
}

/// Where messages are searched.
pub fn search_url(guild_id: u64) -> (r: String)
    ensures
        r@ == "https://discord.com/api/v10/guilds/"@ + text::decimal(guild_id as nat)
            + "/messages/search"@,
{
    let mut out: String = "https://discord.com/api/v10/guilds/".to_owned();
    let id: String = text::decimal_string(guild_id);
    out.append(id.as_str());
    out.append("/messages/search");
    out
}

// ── Answers ─────────────────────────────────────────────────────────────────

/// What is answered where Discord asks to wait.
pub open spec fn rate_limit_view(retry_after: Seq<char>) -> JsonView {
    JsonView::Object(
        seq![
            (
                "error"@,
                JsonView::Text("rate limited by Discord, retry after "@ + retry_after + "s"@),
            ),
            ("retry_after"@, JsonView::Text(retry_after)),
        ],
    )
}

/// What is made of a status that is no success: Discord asks to wait, for a time that
/// it may say, or reports an error. `status` is the status with its reason.
pub fn failure_answer(
    code: u16,
    status: &str,
    retry_after: Option<&str>,
    body: &str,
) -> (r: Option<Json>)
    ensures
        if code == 429 {
            r matches Some(a) && a@ == rate_limit_view(
                match retry_after {
                    Some(t) => t@,
                    None => "unknown"@,
                },
            )
        } else if 200 <= code <= 299 {
            r is None
        } else {
            r matches Some(a) && a@ == json::error_view(
                "Discord API error "@ + status@ + ": "@ + body@,
            )
        },
{
    broadcast use json::lemma_json_view;

    if code == 429 {
        let wait: &str = match retry_after {
            Some(t) => t,
            None => "unknown",
        };
        let mut message: String = "rate limited by Discord, retry after ".to_owned();
        message.append(wait);
        message.append("s");
        let mut out: Object = Object::new();
        out.put("error", Json::Text(message));
        out.put("retry_after", Json::string(wait));
        assert(out.fields() =~= rate_limit_view(wait@)->Object_0);
        return Some(out.done());
    }
    if code >= 200 && code <= 299 {
        return None;
    }
    let mut message: String = "Discord API error ".to_owned();
    message.append(status);
    message.append(": ");
    message.append(body);
    Some(Json::error(message))
}

/// A message that was found, with its channel.
pub struct FoundMessage {
    pub channel_id: u64,
    pub message: MessageInfo,
}

/// The message that a group of results is about: its first.
pub open spec fn group_message(group: JsonView) -> Option<JsonView> {
    match group {
        JsonView::Array(list) => if list.len() > 0 {
            Some(list[0])
        } else {
            None
        },
        _ => None,
    }
}

/// The channel that a result says it is from; zero where it says none.
pub open spec fn group_channel(group: JsonView) -> u64 {
    match group_message(group) {
        Some(m) => match json::string_of(json::member(m, "channel_id"@)) {
            Some(s) => match text::parsed_u64(s) {
                Some(id) => id,
                None => 0,
            },
            None => 0,
        },
        None => 0,
    }
}

/// Whether the message of a group may be shown: it is from a channel that may be
/// written to.
pub fn permitted_group(gate: &OutboundGate, group: &Json) -> (r: bool)
    ensures
        r == (group_channel(group@) != 0 && gate.allowed(group_channel(group@))),
{
    let list: &Vec<Json> = match group.as_array() {
        Some(list) => list,
        None => {
            return false;
        },
    };
    if list.len() == 0 {
        return false;
    }
    assert(json::json_views(list@)[0] == list@[0]@);
    let channel: u64 = match list[0].get("channel_id") {
        Some(v) => match v.as_str() {
            Some(s) => match text::parse_u64(s) {
                Some(id) => id,
                None => 0,
            },
            None => 0,
        },
        None => 0,
    };
    channel != 0 && gate.check(channel)
}

/// A message that was found, as JSON: with its channel, because a search spans
/// several.
pub open spec fn found_view(evidence_markers_enabled: bool, found: FoundMessage) -> JsonView {
    messaging::with_channel(
        messaging::message_view(evidence_markers_enabled, found.message, false),
        found.channel_id,
    )
}

/// The messages of the groups that may be shown, in order. `parsed` says what the
/// message of each group was read as; a message that could not be read is left out.
pub open spec fn shown_messages(
    gate: OutboundGate,
    evidence_markers_enabled: bool,
    groups: Seq<JsonView>,
    parsed: Seq<Option<FoundMessage>>,
) -> Seq<JsonView>
    decreases groups.len(),
{
    if groups.len() == 0 || parsed.len() != groups.len() {
        Seq::empty()
    } else {
        let before = shown_messages(
            gate,
            evidence_markers_enabled,
            groups.drop_last(),
            parsed.drop_last(),
        );
        let channel = group_channel(groups.last());
        match parsed.last() {
            Some(found) if channel != 0 && gate.allowed(channel) => before.push(
                found_view(evidence_markers_enabled, found),
            ),
            _ => before,
        }
    }
}

/// The messages of the groups that may be shown. `parsed` says what the message of
/// each group was read as.
pub fn filter_results(
    gate: &OutboundGate,
    evidence_markers_enabled: bool,
    groups: &Vec<Json>,
    parsed: &Vec<Option<FoundMessage>>,
) -> (r: Vec<Json>)
    requires
        parsed@.len() == groups@.len(),
    ensures
        json::json_views(r@) == shown_messages(
            *gate,
            evidence_markers_enabled,
            json::json_views(groups@),
            parsed@,
        ),
        r@.len() <= groups@.len(),
{
    let ghost all = json::json_views(groups@);
    let mut out: Vec<Json> = Vec::new();
    let mut i: usize = 0;
    assert(json::json_views(out@) =~= shown_messages(
        *gate,
        evidence_markers_enabled,
        all.take(0),
        parsed@.take(0),
    ));
    while i < groups.len()
        invariant
            i <= groups@.len(),
            parsed@.len() == groups@.len(),
            all == json::json_views(groups@),
            out@.len() <= i,
            json::json_views(out@) == shown_messages(
                *gate,
                evidence_markers_enabled,
                all.take(i as int),
                parsed@.take(i as int),
            ),
        decreases groups@.len() - i,
    {
        let ghost had = json::json_views(out@);
        proof {
            assert(all.take(i + 1).drop_last() =~= all.take(i as int));
            assert(all.take(i + 1).last() == groups@[i as int]@);
            assert(parsed@.take(i + 1).drop_last() =~= parsed@.take(i as int));
            assert(parsed@.take(i + 1).last() == parsed@[i as int]);
        }
        if permitted_group(gate, &groups[i]) {
            if let Some(found) = &parsed[i] {
                let shown: Json = messaging::add_dm_channel_receipt(
                    message_json(evidence_markers_enabled, &found.message),
                    found.channel_id,
                );
                let ghost v = shown@;
                out.push(shown);
                assert(json::json_views(out@) =~= had.push(v));
            }
        }
        i = i + 1;
    }
    assert(all.take(all.len() as int) =~= all);
    assert(parsed@.take(parsed@.len() as int) =~= parsed@);
    out
}

/// What a search is answered with.
pub open spec fn results_view(
    messages: Seq<JsonView>,
    offset: nat,
    has_more: bool,
) -> JsonView {
    JsonView::Object(
        seq![
            ("messages"@, JsonView::Array(messages)),
            ("count"@, JsonView::Unsigned(messages.len() as u64)),
            ("offset"@, JsonView::Unsigned(offset as u64)),
            ("has_more"@, JsonView::Bool(has_more)),
        ],
    )
}

/// What a search is answered with, from what Discord answered. There may be more
/// where Discord's page was full, however much of it may be shown.
pub fn search_answer(
    gate: &OutboundGate,
    evidence_markers_enabled: bool,
    params: &SearchParams,
    body: &Json,
    parsed: &Vec<Option<FoundMessage>>,
) -> (r: Json)
    requires
        json::array_of(json::member(body@, "messages"@)) matches Some(groups) ==> parsed@.len()
            == groups.len(),
    ensures
        r@ == match json::array_of(json::member(body@, "messages"@)) {
            Some(groups) => results_view(
                shown_messages(*gate, evidence_markers_enabled, groups, parsed@),
                page_start(params@),
                groups.len() >= page_size(params@),
            ),
            None => results_view(Seq::empty(), page_start(params@), false),
        },
{
    broadcast use json::lemma_json_view;

    let mut messages: Vec<Json> = Vec::new();
    let mut has_more: bool = false;
    assert(json::json_views(messages@) =~= Seq::empty());
    if let Some(v) = body.get("messages") {
        if let Some(groups) = v.as_array() {
            messages = filter_results(gate, evidence_markers_enabled, groups, parsed);
            has_more = groups.len() >= params.limit_value() as usize;
        }
    }
    let ghost shown = json::json_views(messages@);
    let count: usize = messages.len();
    let mut out: Object = Object::new();
    out.put("messages", Json::Array(messages));
    out.put("count", Json::Unsigned(count as u64));
    out.put("offset", Json::Unsigned(params.offset_value() as u64));
    out.put("has_more", Json::Bool(has_more));
    assert(out.fields() =~= results_view(shown, page_start(params@), has_more)->Object_0);
    out.done()
}

/// Nothing is shown from a channel that may not be written to: every message that is
/// shown is that of a group from a permitted channel.
pub proof fn law_search_shows_permitted_channels_only(
    gate: OutboundGate,
    evidence_markers_enabled: bool,
    groups: Seq<JsonView>,
    parsed: Seq<Option<FoundMessage>>,
)
    requires
        parsed.len() == groups.len(),
    ensures
        forall|k: int|
            0 <= k < shown_messages(gate, evidence_markers_enabled, groups, parsed).len()
                ==> exists|i: int|
                0 <= i < groups.len() && gate.allowed(#[trigger] group_channel(groups[i]))
                    && parsed[i] is Some && #[trigger] shown_messages(
                    gate,
                    evidence_markers_enabled,
                    groups,
                    parsed,
                )[k] == found_view(evidence_markers_enabled, parsed[i]->0),
    decreases groups.len(),
{
    if groups.len() > 0 {
        let before = shown_messages(
            gate,
            evidence_markers_enabled,
            groups.drop_last(),
            parsed.drop_last(),
        );
        let shown = shown_messages(gate, evidence_markers_enabled, groups, parsed);
        law_search_shows_permitted_channels_only(
            gate,
            evidence_markers_enabled,
            groups.drop_last(),
            parsed.drop_last(),
        );
        assert forall|k: int| 0 <= k < shown.len() implies exists|i: int|
            0 <= i < groups.len() && gate.allowed(#[trigger] group_channel(groups[i]))
                && parsed[i] is Some && #[trigger] shown[k] == found_view(
                evidence_markers_enabled,
                parsed[i]->0,
            ) by {
            if k < before.len() {
                assert(shown[k] == before[k]);
                let i = choose|i: int|
                    0 <= i < groups.drop_last().len() && gate.allowed(
                        #[trigger] group_channel(groups.drop_last()[i]),
                    ) && parsed.drop_last()[i] is Some && before[k] == found_view(
                        evidence_markers_enabled,
                        parsed.drop_last()[i]->0,
                    );
                assert(groups.drop_last()[i] == groups[i]);
                assert(gate.allowed(group_channel(groups[i])));
            } else {
                assert(gate.allowed(group_channel(groups[groups.len() - 1])));
            }
        }
    }
}

// ── What holds of a search ──────────────────────────────────────────────────

proof fn lemma_each_holds(name: Seq<char>, values: Seq<Seq<char>>, k: Seq<char>, v: Seq<char>)
    ensures
        each(name, values).contains((k, v)) <==> k == name && values.contains(v),
{
    let pairs = each(name, values);
    if pairs.contains((k, v)) {
        let i = choose|i: int| 0 <= i < pairs.len() && pairs[i] == (k, v);
        assert(values[i] == v);
    }
    if k == name && values.contains(v) {
        let i = choose|i: int| 0 <= i < values.len() && values[i] == v;
        assert(pairs[i] == (k, v));
    }
}

proof fn lemma_once_holds(name: Seq<char>, value: Option<Seq<char>>, k: Seq<char>, v: Seq<char>)
    ensures
        once(name, value).contains((k, v)) <==> k == name && value == Some(v),
{
    if value is Some {
        assert(once(name, value)[0] == (name, value->0));
    }
}

proof fn lemma_digits_hold(ids: Seq<u64>, v: Seq<char>)
    ensures
        digits_of(ids).contains(v) <==> exists|i: int|
            0 <= i < ids.len() && v == text::decimal(#[trigger] ids[i] as nat),
{
    let digits = digits_of(ids);
    if digits.contains(v) {
        let i = choose|i: int| 0 <= i < digits.len() && digits[i] == v;
        assert(v == text::decimal(ids[i] as nat));
    }
    if exists|i: int| 0 <= i < ids.len() && v == text::decimal(#[trigger] ids[i] as nat) {
        let i = choose|i: int| 0 <= i < ids.len() && v == text::decimal(#[trigger] ids[i] as nat);
        assert(digits[i] == v);
    }
}

proof fn lemma_query_holds(
    p: ParamsView,
    q: Seq<(Seq<char>, Seq<char>)>,
    k: Seq<char>,
    v: Seq<char>,
)
    requires
        query_of(p) == Ok::<Seq<(Seq<char>, Seq<char>)>, Seq<char>>(q),
    ensures
        q.contains((k, v)) <==> {
            ||| k == "content"@ && p.content == Some(v)
            ||| k == "author_id"@ && digits_of(p.author_ids).contains(v)
            ||| k == "mentions"@ && digits_of(p.mentions).contains(v)
            ||| k == "has"@ && p.has.map_values(|h: SearchHas| has_text(h)).contains(v)
            ||| k == "max_id"@ && p.before is Some && v == text::decimal(
                p.before->0.bound()->Ok_0 as nat,
            )
            ||| k == "min_id"@ && p.after is Some && v == text::decimal(
                p.after->0.bound()->Ok_0 as nat,
            )
            ||| k == "channel_id"@ && digits_of(p.channel_ids).contains(v)
            ||| k == "pinned"@ && p.pinned is Some && v == if p.pinned->0 {
                "true"@
            } else {
                "false"@
            }
            ||| k == "sort_by"@ && p.sort_by is Some && v == sort_text(p.sort_by->0)
            ||| k == "sort_order"@ && p.sort_order is Some && v == order_text(p.sort_order->0)
            ||| k == "limit"@ && v == text::decimal(page_size(p))
            ||| k == "offset"@ && page_start(p) > 0 && v == text::decimal(page_start(p))
        },
{
    broadcast use vstd::seq_lib::lemma_seq_concat_contains_all_elements;

    let has = p.has.map_values(|h: SearchHas| has_text(h));
    let max_id = match p.before {
        Some(t) => Some(text::decimal(t.bound()->Ok_0 as nat)),
        None => None,
    };
    let min_id = match p.after {
        Some(t) => Some(text::decimal(t.bound()->Ok_0 as nat)),
        None => None,
    };
    let pinned = match p.pinned {
        Some(b) => Some(
            if b {
                "true"@
            } else {
                "false"@
            },
        ),
        None => None,
    };
    let sort_by = match p.sort_by {
        Some(s) => Some(sort_text(s)),
        None => None,
    };
    let sort_order = match p.sort_order {
        Some(o) => Some(order_text(o)),
        None => None,
    };
    let offset = if page_start(p) > 0 {
        Some(text::decimal(page_start(p)))
    } else {
        None
    };
    let limit = seq![("limit"@, text::decimal(page_size(p)))];
    assert(q == once("content"@, p.content) + each("author_id"@, digits_of(p.author_ids)) + each(
        "mentions"@,
        digits_of(p.mentions),
    ) + each("has"@, has) + once("max_id"@, max_id) + once("min_id"@, min_id) + each(
        "channel_id"@,
        digits_of(p.channel_ids),
    ) + once("pinned"@, pinned) + once("sort_by"@, sort_by) + once("sort_order"@, sort_order)
        + limit + once("offset"@, offset));
    lemma_once_holds("content"@, p.content, k, v);
    lemma_each_holds("author_id"@, digits_of(p.author_ids), k, v);
    lemma_each_holds("mentions"@, digits_of(p.mentions), k, v);
    lemma_each_holds("has"@, has, k, v);
    lemma_once_holds("max_id"@, max_id, k, v);
    lemma_once_holds("min_id"@, min_id, k, v);
    lemma_each_holds("channel_id"@, digits_of(p.channel_ids), k, v);
    lemma_once_holds("pinned"@, pinned, k, v);
    lemma_once_holds("sort_by"@, sort_by, k, v);
    lemma_once_holds("sort_order"@, sort_order, k, v);
    lemma_once_holds("offset"@, offset, k, v);
    assert(limit.contains((k, v)) <==> k == "limit"@ && v == text::decimal(page_size(p))) by {
        assert(limit[0] == ("limit"@, text::decimal(page_size(p))));
    }
}

proof fn lemma_booleans_differ()
    ensures
        "true"@ != "false"@,
{
    reveal_strlit("true");
    reveal_strlit("false");
    assert("true"@.len() == 4 && "false"@.len() == 5);
}

proof fn lemma_key_apart(k: Seq<char>)
    ensures
        k == "pinned"@ ==> k != "content"@ && k != "author_id"@ && k != "mentions"@ && k != "has"@ && k
            != "max_id"@ && k != "min_id"@ && k != "channel_id"@ && k != "sort_by"@ && k
            != "sort_order"@ && k != "limit"@ && k != "offset"@,
        k == "content"@ ==> k != "author_id"@ && k != "mentions"@ && k != "has"@ && k != "max_id"@ && k
            != "min_id"@ && k != "channel_id"@ && k != "sort_by"@ && k != "sort_order"@ && k
            != "limit"@ && k != "offset"@,
        k == "author_id"@ ==> k != "mentions"@ && k != "has"@ && k != "max_id"@ && k != "min_id"@ && k
            != "channel_id"@ && k != "sort_by"@ && k != "sort_order"@ && k != "limit"@ && k
            != "offset"@,
        k == "mentions"@ ==> k != "has"@ && k != "max_id"@ && k != "min_id"@ && k != "channel_id"@ && k
            != "sort_by"@ && k != "sort_order"@ && k != "limit"@ && k != "offset"@,
        k == "has"@ ==> k != "max_id"@ && k != "min_id"@ && k != "channel_id"@ && k != "sort_by"@ && k
            != "sort_order"@ && k != "limit"@ && k != "offset"@,
        k == "max_id"@ ==> k != "min_id"@ && k != "channel_id"@ && k != "sort_by"@ && k
            != "sort_order"@ && k != "limit"@ && k != "offset"@,
        k == "min_id"@ ==> k != "channel_id"@ && k != "sort_by"@ && k != "sort_order"@ && k != "limit"@
            && k != "offset"@,
        k == "channel_id"@ ==> k != "sort_by"@ && k != "sort_order"@ && k != "limit"@ && k
            != "offset"@,
        k == "sort_by"@ ==> k != "sort_order"@ && k != "limit"@ && k != "offset"@,
        k == "sort_order"@ ==> k != "limit"@ && k != "offset"@,
        k == "limit"@ ==> k != "offset"@,
{
    reveal_strlit("content");
    reveal_strlit("author_id");
    reveal_strlit("mentions");
    reveal_strlit("has");
    reveal_strlit("max_id");
    reveal_strlit("min_id");
    reveal_strlit("channel_id");
    reveal_strlit("pinned");
    reveal_strlit("sort_by");
    reveal_strlit("sort_order");
    reveal_strlit("limit");
    reveal_strlit("offset");
    assert("content"@.len() == 7 && "content"@[0] == 'c');
    assert("author_id"@.len() == 9);
    assert("mentions"@.len() == 8);
    assert("has"@.len() == 3);
    assert("max_id"@.len() == 6 && "max_id"@[1] == 'a' && "max_id"@[0] == 'm');
    assert("min_id"@.len() == 6 && "min_id"@[1] == 'i' && "min_id"@[0] == 'm');
    assert("channel_id"@.len() == 10 && "channel_id"@[0] == 'c');
    assert("pinned"@.len() == 6 && "pinned"@[0] == 'p');
    assert("sort_by"@.len() == 7 && "sort_by"@[0] == 's');
    assert("sort_order"@.len() == 10 && "sort_order"@[0] == 's');
    assert("limit"@.len() == 5);
    assert("offset"@.len() == 6 && "offset"@[0] == 'o');
}

/// Only pinned messages are asked for where the search wants pinned ones, only others
/// where it wants others, and nothing is said of it where the search does not care.
pub proof fn law_pinned_messages_are_asked_for(
    p: ParamsView,
    q: Seq<(Seq<char>, Seq<char>)>,
    v: Seq<char>,
)
    requires
        query_of(p) == Ok::<Seq<(Seq<char>, Seq<char>)>, Seq<char>>(q),
    ensures
        q.contains(("pinned"@, "true"@)) <==> p.pinned == Some(true),
        q.contains(("pinned"@, "false"@)) <==> p.pinned == Some(false),
        p.pinned is None ==> !q.contains(("pinned"@, v)),
{
    lemma_key_apart("pinned"@);
    lemma_booleans_differ();
    lemma_query_holds(p, q, "pinned"@, "true"@);
    lemma_query_holds(p, q, "pinned"@, "false"@);
    lemma_query_holds(p, q, "pinned"@, v);
}

/// The words, the authors, the mentioned and the channels that are asked for are those
/// of the search, each under its own name and no others.
pub proof fn law_queries_name_what_is_searched_for(
    p: ParamsView,
    q: Seq<(Seq<char>, Seq<char>)>,
    v: Seq<char>,
)
    requires
        query_of(p) == Ok::<Seq<(Seq<char>, Seq<char>)>, Seq<char>>(q),
    ensures
        q.contains(("content"@, v)) <==> p.content == Some(v),
        q.contains(("author_id"@, v)) <==> exists|i: int|
            0 <= i < p.author_ids.len() && v == text::decimal(#[trigger] p.author_ids[i] as nat),
        q.contains(("mentions"@, v)) <==> exists|i: int|
            0 <= i < p.mentions.len() && v == text::decimal(#[trigger] p.mentions[i] as nat),
        q.contains(("channel_id"@, v)) <==> exists|i: int|
            0 <= i < p.channel_ids.len() && v == text::decimal(#[trigger] p.channel_ids[i] as nat),
{
    lemma_key_apart("content"@);
    lemma_key_apart("pinned"@);
    lemma_key_apart("author_id"@);
    lemma_key_apart("mentions"@);
    lemma_key_apart("channel_id"@);
    lemma_key_apart("has"@);
    lemma_key_apart("max_id"@);
    lemma_key_apart("min_id"@);
    lemma_query_holds(p, q, "content"@, v);
    lemma_query_holds(p, q, "author_id"@, v);
    lemma_query_holds(p, q, "mentions"@, v);
    lemma_query_holds(p, q, "channel_id"@, v);
    lemma_digits_hold(p.author_ids, v);
    lemma_digits_hold(p.mentions, v);
    lemma_digits_hold(p.channel_ids, v);
}

/// What a message has to hold is asked for by its word, and nothing else is.
pub proof fn law_queries_name_what_messages_hold(
    p: ParamsView,
    q: Seq<(Seq<char>, Seq<char>)>,
    h: SearchHas,
)
    requires
        query_of(p) == Ok::<Seq<(Seq<char>, Seq<char>)>, Seq<char>>(q),
    ensures
        q.contains(
            (
                "has"@,
                match h {
                    SearchHas::Link => "link"@,
                    SearchHas::Embed => "embed"@,
                    SearchHas::File => "file"@,
                    SearchHas::Video => "video"@,
                    SearchHas::Image => "image"@,
                    SearchHas::Sound => "sound"@,
                    SearchHas::Sticker => "sticker"@,
                },
            ),
        ) <==> p.has.contains(h),
{
    let words = p.has.map_values(|h: SearchHas| has_text(h));
    lemma_key_apart("has"@);
    lemma_key_apart("pinned"@);
    lemma_key_apart("content"@);
    lemma_key_apart("author_id"@);
    lemma_key_apart("mentions"@);
    lemma_query_holds(p, q, "has"@, has_text(h));
    if words.contains(has_text(h)) {
        let i = choose|i: int| 0 <= i < words.len() && words[i] == has_text(h);
        law_words_read_back(h);
        law_words_read_back(p.has[i]);
        assert(p.has[i] == h);
    }
    if p.has.contains(h) {
        let i = choose|i: int| 0 <= i < p.has.len() && p.has[i] == h;
        assert(words[i] == has_text(h));
    }
}

/// Every word of a search reads back as what it stands for.
pub proof fn law_words_read_back(h: SearchHas)
    ensures
        has_named(has_text(h)) == Some(h),
        sort_named("timestamp"@) == Some(SortBy::Timestamp),
        sort_named("relevance"@) == Some(SortBy::Relevance),
        order_named("asc"@) == Some(SortOrder::Asc),
        order_named("desc"@) == Some(SortOrder::Desc),
{
    reveal_strlit("link");
    reveal_strlit("embed");
    reveal_strlit("file");
    reveal_strlit("video");
    reveal_strlit("image");
    reveal_strlit("sound");
    reveal_strlit("sticker");
    assert("link"@.len() == 4 && "link"@[0] == 'l');
    assert("embed"@.len() == 5 && "embed"@[0] == 'e');
    assert("file"@.len() == 4 && "file"@[0] == 'f');
    assert("video"@.len() == 5 && "video"@[0] == 'v');
    assert("image"@.len() == 5 && "image"@[0] == 'i');
    assert("sound"@.len() == 5 && "sound"@[0] == 's');
    assert("sticker"@.len() == 7);
    reveal_strlit("timestamp");
    reveal_strlit("relevance");
    assert("timestamp"@[0] == 't' && "relevance"@[0] == 'r');
    reveal_strlit("asc");
    reveal_strlit("desc");
    assert("asc"@.len() == 3 && "desc"@.len() == 4);
}

/// The order that a search wants is the order that is asked for.
pub proof fn law_queries_keep_the_order(
    p: ParamsView,
    q: Seq<(Seq<char>, Seq<char>)>,
    v: Seq<char>,
)
    requires
        query_of(p) == Ok::<Seq<(Seq<char>, Seq<char>)>, Seq<char>>(q),
    ensures
        q.contains(("sort_by"@, "timestamp"@)) <==> p.sort_by == Some(SortBy::Timestamp),
        q.contains(("sort_by"@, "relevance"@)) <==> p.sort_by == Some(SortBy::Relevance),
        q.contains(("sort_order"@, "asc"@)) <==> p.sort_order == Some(SortOrder::Asc),
        q.contains(("sort_order"@, "desc"@)) <==> p.sort_order == Some(SortOrder::Desc),
        p.sort_by is None ==> !q.contains(("sort_by"@, v)),
        p.sort_order is None ==> !q.contains(("sort_order"@, v)),
{
    law_words_read_back(SearchHas::Link);
    lemma_key_apart("pinned"@);
    lemma_key_apart("content"@);
    lemma_key_apart("author_id"@);
    lemma_key_apart("mentions"@);
    lemma_key_apart("has"@);
    lemma_key_apart("max_id"@);
    lemma_key_apart("min_id"@);
    lemma_key_apart("channel_id"@);
    lemma_key_apart("sort_by"@);
    lemma_key_apart("sort_order"@);
    lemma_query_holds(p, q, "sort_by"@, "timestamp"@);
    lemma_query_holds(p, q, "sort_by"@, "relevance"@);
    lemma_query_holds(p, q, "sort_order"@, "asc"@);
    lemma_query_holds(p, q, "sort_order"@, "desc"@);
    lemma_query_holds(p, q, "sort_by"@, v);
    lemma_query_holds(p, q, "sort_order"@, v);
}

/// The page that is asked for is the search's: as many messages as it wants, or 25, past
/// as many as it skips, if it skips any.
pub proof fn law_queries_ask_for_the_page(
    p: ParamsView,
    q: Seq<(Seq<char>, Seq<char>)>,
    v: Seq<char>,
)
    requires
        query_of(p) == Ok::<Seq<(Seq<char>, Seq<char>)>, Seq<char>>(q),
    ensures
        q.contains(("limit"@, v)) <==> v == match p.limit {
            Some(l) => text::decimal(l as nat),
            None => text::decimal(25),
        },
        q.contains(("offset"@, v)) <==> (p.offset matches Some(o) && o > 0 && v == text::decimal(
            o as nat,
        )),
        page_size(p) == (match p.limit {
            Some(l) => l as nat,
            None => 25nat,
        }),
        page_start(p) == (match p.offset {
            Some(o) => o as nat,
            None => 0nat,
        }),
{
    lemma_key_apart("pinned"@);
    lemma_key_apart("content"@);
    lemma_key_apart("author_id"@);
    lemma_key_apart("mentions"@);
    lemma_key_apart("has"@);
    lemma_key_apart("max_id"@);
    lemma_key_apart("min_id"@);
    lemma_key_apart("channel_id"@);
    lemma_key_apart("sort_by"@);
    lemma_key_apart("sort_order"@);
    lemma_key_apart("limit"@);
    lemma_query_holds(p, q, "limit"@, v);
    lemma_query_holds(p, q, "offset"@, v);
}

/// What is to come before a message bounds the ids from above, and what is to come after
/// it from below, by that message's own id; a day does so by the first id of the day.
pub proof fn law_times_bound_the_ids(
    p: ParamsView,
    q: Seq<(Seq<char>, Seq<char>)>,
    id: u64,
    v: Seq<char>,
)
    requires
        query_of(p) == Ok::<Seq<(Seq<char>, Seq<char>)>, Seq<char>>(q),
    ensures
        p.before == Some(SearchTimestamp::Snowflake(id)) ==> (q.contains(("max_id"@, v)) <==> v
            == text::decimal(id as nat)),
        p.after == Some(SearchTimestamp::Snowflake(id)) ==> (q.contains(("min_id"@, v)) <==> v
            == text::decimal(id as nat)),
        p.before is None ==> !q.contains(("max_id"@, v)),
        p.after is None ==> !q.contains(("min_id"@, v)),
        p.before matches Some(SearchTimestamp::Date(day)) ==> (q.contains(("max_id"@, v)) <==> v
            == text::decimal(snowflake_at((day - 735_599) * 86_400_000) as nat)),
        p.after matches Some(SearchTimestamp::Date(day)) ==> (q.contains(("min_id"@, v)) <==> v
            == text::decimal(snowflake_at((day - 735_599) * 86_400_000) as nat)),
{
    lemma_key_apart("pinned"@);
    lemma_key_apart("content"@);
    lemma_key_apart("author_id"@);
    lemma_key_apart("mentions"@);
    lemma_key_apart("has"@);
    lemma_key_apart("max_id"@);
    lemma_key_apart("min_id"@);
    lemma_query_holds(p, q, "max_id"@, v);
    lemma_query_holds(p, q, "min_id"@, v);
}

/// A day is turned away where it lies before Discord's first, the first of 2015. Later
/// ones come to the milliseconds since then, which stand in an id above its last 22
/// bits.
pub proof fn law_days_come_to_ids(day: i32)
    ensures
        (SearchTimestamp::Date(day)).bound() is Err <==> day < 735_599,
        (SearchTimestamp::Date(735_599)).bound() == Ok::<u64, Seq<char>>(0),
        735_599 <= day && (day - 735_599) * 86_400_000 < 0x400_0000_0000 ==> (
        SearchTimestamp::Date(day)).bound() == Ok::<u64, Seq<char>>(
            ((day - 735_599) * 86_400_000 * 4_194_304) as u64,
        ),
{
}

/// A search is turned away where it says nothing of what it is for, or names a day before
/// Discord's first; any other comes to a query.
pub proof fn law_searches_need_a_filter(p: ParamsView)
    ensures
        query_of(p) is Err <==> {
            ||| p.content is None && p.author_ids.len() == 0 && p.mentions.len() == 0
                && p.has.len() == 0 && p.before is None && p.after is None && p.channel_ids.len()
                == 0 && p.pinned is None
            ||| p.before matches Some(SearchTimestamp::Date(day)) && day < 735_599
            ||| p.after matches Some(SearchTimestamp::Date(day)) && day < 735_599
        },
{
}

/// Every message that was found in a permitted channel, and could be read, is shown.
pub proof fn law_permitted_results_are_shown(
    gate: OutboundGate,
    evidence_markers_enabled: bool,
    groups: Seq<JsonView>,
    parsed: Seq<Option<FoundMessage>>,
    i: int,
)
    requires
        parsed.len() == groups.len(),
        0 <= i < groups.len(),
        group_channel(groups[i]) != 0,
        gate.allowed(group_channel(groups[i])),
        parsed[i] is Some,
    ensures
        shown_messages(gate, evidence_markers_enabled, groups, parsed).contains(
            found_view(evidence_markers_enabled, parsed[i]->0),
        ),
    decreases groups.len(),
{
    let shown = shown_messages(gate, evidence_markers_enabled, groups, parsed);
    if i < groups.len() - 1 {
        let front = groups.drop_last();
        let read = parsed.drop_last();
        law_permitted_results_are_shown(gate, evidence_markers_enabled, front, read, i);
        let before = shown_messages(gate, evidence_markers_enabled, front, read);
        let view = found_view(evidence_markers_enabled, parsed[i]->0);
        let k = choose|k: int| 0 <= k < before.len() && before[k] == view;
        assert(shown[k] == view);
    } else {
        assert(shown.last() == found_view(evidence_markers_enabled, parsed[i]->0));
        assert(shown[shown.len() - 1] == shown.last());
    }
}

/// A group of messages counts as coming from the channel of its first message, and from
/// none where that is not told.
pub proof fn law_groups_come_from_the_channel_of_their_first(
    list: Seq<JsonView>,
    fields: Seq<(Seq<char>, JsonView)>,
)
    requires
        list.len() > 0,
        list[0] == JsonView::Object(fields),
    ensures
        json::field_of(fields, "channel_id"@) matches Some(JsonView::Text(s)) ==> (
        text::parsed_u64(s) matches Some(id) ==> group_channel(JsonView::Array(list)) == id),
        json::field_of(fields, "channel_id"@) is None ==> group_channel(JsonView::Array(list)) == 0,
        group_channel(JsonView::Array(Seq::empty())) == 0,
{
}

/// The answer holds the messages that are shown and says how many they are, where the
/// page starts and whether there may be more.
pub proof fn law_answers_hold_the_page(messages: Seq<JsonView>, offset: nat, has_more: bool)
    ensures
        results_view(messages, offset, has_more) matches JsonView::Object(fields)
            && fields.contains(("messages"@, JsonView::Array(messages))) && fields.contains(
            ("count"@, JsonView::Unsigned(messages.len() as u64)),
        ) && fields.contains(("offset"@, JsonView::Unsigned(offset as u64))) && fields.contains(
            ("has_more"@, JsonView::Bool(has_more)),
        ),
{
    let fields = results_view(messages, offset, has_more)->Object_0;
    assert(fields.contains(fields[0]));
    assert(fields.contains(fields[1]));
    assert(fields.contains(fields[2]));
    assert(fields.contains(fields[3]));
}

proof fn lemma_no_problem(problems: Seq<Option<Seq<char>>>, i: int)
    requires
        first_problem(problems) is None,
        0 <= i < problems.len(),
    ensures
        problems[i] is None,
    decreases problems.len(),
{
    if i < problems.len() - 1 {
        lemma_no_problem(problems.drop_last(), i);
    }
}

/// The arguments of a search mean what they say: its words, whether it wants pinned
/// messages, its bounds and its page are those that stand under their names, and what is
/// not there, or is null, is not asked for. No search wants more than 25 messages, or
/// skips more than 9975.
pub proof fn law_arguments_mean_what_they_say(args: JsonView, p: ParamsView)
    requires
        args is Object,
        params_of(args) == Ok::<ParamsView, Seq<char>>(p),
    ensures
        match json::member(args, "content"@) {
            Some(JsonView::Text(s)) => p.content == Some(s),
            Some(JsonView::Null) => p.content is None,
            None => p.content is None,
            _ => false,
        },
        match json::member(args, "pinned"@) {
            Some(JsonView::Bool(b)) => p.pinned == Some(b),
            Some(JsonView::Null) => p.pinned is None,
            None => p.pinned is None,
            _ => false,
        },
        match json::member(args, "limit"@) {
            Some(JsonView::Unsigned(v)) => 1 <= v <= 25 && p.limit == Some(v as u8),
            Some(JsonView::Null) => p.limit is None,
            None => p.limit is None,
            _ => false,
        },
        match json::member(args, "offset"@) {
            Some(JsonView::Unsigned(v)) => v <= 9975 && p.offset == Some(v as u16),
            Some(JsonView::Null) => p.offset is None,
            None => p.offset is None,
            _ => false,
        },
        json::member(args, "before"@) matches Some(JsonView::Unsigned(v)) ==> v != 0 && p.before
            == Some(SearchTimestamp::Snowflake(v)),
        json::member(args, "after"@) matches Some(JsonView::Unsigned(v)) ==> v != 0 && p.after
            == Some(SearchTimestamp::Snowflake(v)),
        json::member(args, "before"@) is None ==> p.before is None,
        json::member(args, "after"@) is None ==> p.after is None,
        json::member(args, "author_id"@) matches Some(JsonView::Unsigned(v)) ==> v != 0
            && p.author_ids == seq![v],
        json::member(args, "mentions"@) matches Some(JsonView::Unsigned(v)) ==> v != 0
            && p.mentions == seq![v],
        json::member(args, "channel_id"@) matches Some(JsonView::Unsigned(v)) ==> v != 0
            && p.channel_ids == seq![v],
        json::member(args, "author_id"@) is None ==> p.author_ids.len() == 0,
        json::member(args, "mentions"@) is None ==> p.mentions.len() == 0,
        json::member(args, "channel_id"@) is None ==> p.channel_ids.len() == 0,
        json::member(args, "has"@) is None ==> p.has.len() == 0,
        json::member(args, "sort_by"@) == Some(JsonView::Text("timestamp"@)) ==> p.sort_by == Some(
            SortBy::Timestamp,
        ),
        json::member(args, "sort_by"@) == Some(JsonView::Text("relevance"@)) ==> p.sort_by == Some(
            SortBy::Relevance,
        ),
        json::member(args, "sort_by"@) is None ==> p.sort_by is None,
        json::member(args, "sort_order"@) == Some(JsonView::Text("asc"@)) ==> p.sort_order == Some(
            SortOrder::Asc,
        ),
        json::member(args, "sort_order"@) == Some(JsonView::Text("desc"@)) ==> p.sort_order
            == Some(SortOrder::Desc),
        json::member(args, "sort_order"@) is None ==> p.sort_order is None,
{
    let problems = problems_of(args);
    law_words_read_back(SearchHas::Link);
    lemma_no_problem(problems, 0);
    lemma_no_problem(problems, 1);
    lemma_no_problem(problems, 2);
    lemma_no_problem(problems, 3);
    lemma_no_problem(problems, 4);
    lemma_no_problem(problems, 5);
    lemma_no_problem(problems, 6);
    lemma_no_problem(problems, 7);
    lemma_no_problem(problems, 8);
    lemma_no_problem(problems, 9);
    lemma_no_problem(problems, 10);
    lemma_no_problem(problems, 11);
}

/// No id of a list is zero, and none is lost or added: each is the number that stands in
/// its place.
pub proof fn law_ids_are_read_one_by_one(values: Seq<JsonView>, ids: Seq<u64>)
    requires
        ids_of(JsonView::Array(values)) == Ok::<Seq<u64>, Seq<char>>(ids),
    ensures
        ids.len() == values.len(),
        forall|i: int|
            0 <= i < ids.len() ==> (#[trigger] ids[i]) != 0 && match values[i] {
                JsonView::Unsigned(n) => n == ids[i],
                JsonView::Text(s) => text::parsed_u64(s) == Some(ids[i]),
                _ => false,
            },
    decreases values.len(),
{
    if values.len() > 0 {
        let front = values.drop_last();
        let before = element_ids(front)->Ok_0;
        law_ids_are_read_one_by_one(front, before);
        assert(ids == before.push(element_id(values.last())->Ok_0));
        assert forall|i: int| 0 <= i < ids.len() implies (#[trigger] ids[i]) != 0
            && match values[i] {
            JsonView::Unsigned(n) => n == ids[i],
            JsonView::Text(s) => text::parsed_u64(s) == Some(ids[i]),
            _ => false,
        } by {
            if i < front.len() {
                assert(before[i] == ids[i]);
                assert(front[i] == values[i]);
            } else {
                assert(values[i] == values.last());
            }
        }
    }
}

/// A bound in time may be a number or its digits, and an id, too: both come to the same.
pub proof fn law_digits_are_as_good_as_numbers(v: u64)
    ensures
        timestamp_of(JsonView::Text(text::decimal(v as nat))) == timestamp_of(JsonView::Unsigned(v)),
        ids_of(JsonView::Text(text::decimal(v as nat))) == ids_of(JsonView::Unsigned(v)),
        v != 0 ==> timestamp_of(JsonView::Unsigned(v)) == Ok::<SearchTimestamp, Seq<char>>(
            SearchTimestamp::Snowflake(v),
        ),
        v == 0 ==> timestamp_of(JsonView::Unsigned(v)) is Err && ids_of(JsonView::Unsigned(v)) is Err,
{
    text::law_written_numbers_read_back(v);
}

/// What messages have to hold is read word by word: each word stands for what it names.
pub proof fn law_what_messages_hold_is_read_one_by_one(values: Seq<JsonView>, has: Seq<SearchHas>)
    requires
        optional_has(Some(JsonView::Array(values))) == Ok::<Seq<SearchHas>, Seq<char>>(has),
    ensures
        has.len() == values.len(),
        forall|i: int|
            0 <= i < has.len() ==> has_named(#[trigger] variant_name(values[i])->Ok_0) == Some(
                has[i],
            ) && (values[i] matches JsonView::Text(word) ==> has_named(word) == Some(has[i])),
    decreases values.len(),
{
    if values.len() > 0 {
        let front = values.drop_last();
        let before = all_has(front)->Ok_0;
        law_what_messages_hold_is_read_one_by_one(front, before);
        assert(has == before.push(has_of(values.last())->Ok_0));
        assert forall|i: int| 0 <= i < has.len() implies has_named(
            #[trigger] variant_name(values[i])->Ok_0,
        ) == Some(has[i]) && (values[i] matches JsonView::Text(word) ==> has_named(word) == Some(
            has[i],
        )) by {
            if i < front.len() {
                assert(before[i] == has[i]);
                assert(front[i] == values[i]);
                assert(has_named(variant_name(front[i])->Ok_0) == Some(before[i]));
            }
        }
    }
}

/// The arguments of a search may be listed instead of named: the words come first, then
/// the authors, those mentioned, what messages hold, the bounds in time, the channels,
/// whether they are pinned, how they are sorted, and the page.
pub proof fn law_arguments_may_be_listed(list: Seq<JsonView>, p: ParamsView)
    requires
        params_of(JsonView::Array(list)) == Ok::<ParamsView, Seq<char>>(p),
    ensures
        list.len() <= 12,
        list.len() > 0 ==> (list[0] matches JsonView::Text(s) ==> p.content == Some(s)),
        list.len() > 1 ==> (list[1] matches JsonView::Unsigned(v) ==> p.author_ids == seq![v]),
        list.len() > 2 ==> (list[2] matches JsonView::Unsigned(v) ==> p.mentions == seq![v]),
        list.len() > 4 ==> (list[4] matches JsonView::Unsigned(v) ==> p.before == Some(
            SearchTimestamp::Snowflake(v),
        )),
        list.len() > 5 ==> (list[5] matches JsonView::Unsigned(v) ==> p.after == Some(
            SearchTimestamp::Snowflake(v),
        )),
        list.len() > 6 ==> (list[6] matches JsonView::Unsigned(v) ==> p.channel_ids == seq![v]),
        list.len() > 7 ==> (list[7] matches JsonView::Bool(b) ==> p.pinned == Some(b)),
        list.len() > 10 ==> (list[10] matches JsonView::Unsigned(v) ==> p.limit == Some(v as u8)),
        list.len() > 11 ==> (list[11] matches JsonView::Unsigned(v) ==> p.offset == Some(v as u16)),
        list.len() == 0 ==> p.content is None && p.author_ids.len() == 0 && p.mentions.len() == 0
            && p.has.len() == 0 && p.before is None && p.after is None && p.channel_ids.len() == 0
            && p.pinned is None && p.limit is None && p.offset is None,
{
    let args = JsonView::Array(list);
    let problems = problems_of(args);
    lemma_no_problem(problems, 0);
    lemma_no_problem(problems, 1);
    lemma_no_problem(problems, 2);
    lemma_no_problem(problems, 3);
    lemma_no_problem(problems, 4);
    lemma_no_problem(problems, 5);
    lemma_no_problem(problems, 6);
    lemma_no_problem(problems, 7);
    lemma_no_problem(problems, 8);
    lemma_no_problem(problems, 9);
    lemma_no_problem(problems, 10);
    lemma_no_problem(problems, 11);
}

/// Where Discord asks to wait, the answer says for how long.
pub proof fn law_waits_are_told(retry_after: Seq<char>)
    ensures
        rate_limit_view(retry_after) matches JsonView::Object(fields) && fields.len() == 2
            && fields[0] == (
            "error"@,
            JsonView::Text("rate limited by Discord, retry after "@ + retry_after + "s"@),
        ) && fields[1] == ("retry_after"@, JsonView::Text(retry_after)),
{
}

/// A search that went well has no failure to tell of, and every other has one.
pub proof fn law_failed_searches_are_told_of(
    code: u16,
    status: &str,
    retry_after: Option<&str>,
    body: &str,
    r: Option<Json>,
)
    requires
        call_ensures(failure_answer, (code, status, retry_after, body), r),
    ensures
        r is None <==> 200 <= code <= 299,
        code == 429 && retry_after is Some ==> r->0@ == rate_limit_view(retry_after->0@),
        r is Some && code != 429 ==> r->0@ == json::error_view(
            "Discord API error "@ + status@ + ": "@ + body@,
        ),
{
}

/// A page holds one message at least and 25 at most, and 9975 may be skipped.
pub proof fn law_pages_are_bounded(
    v: u64,
    limit: Result<SearchLimit, SearchError>,
    offset: Result<SearchOffset, SearchError>,
)
    requires
        call_ensures(SearchLimit::try_from, (v,), limit),
        call_ensures(SearchOffset::try_from, (v,), offset),
    ensures
        limit is Ok <==> 1 <= v <= 25,
        offset is Ok <==> v <= 9975,
        limit matches Ok(l) ==> l.value() == v,
        offset matches Ok(o) ==> o.value() == v,
{
}

proof fn lemma_tail_digits(head: Seq<char>, digits: Seq<char>)
    requires
        head.len() == 0 || !text::is_digit(head.last()),
        forall|i: int| 0 <= i < digits.len() ==> text::is_digit(#[trigger] digits[i]),
    ensures
        tail_digits(head + digits) == digits.len(),
    decreases digits.len(),
{
    let s = head + digits;
    if digits.len() == 0 {
        assert(s =~= head);
    } else {
        assert(s.last() == digits.last());
        assert(s.drop_last() =~= head + digits.drop_last());
        assert forall|i: int| 0 <= i < digits.drop_last().len() implies text::is_digit(
            #[trigger] digits.drop_last()[i],
        ) by {
            assert(digits.drop_last()[i] == digits[i]);
        }
        lemma_tail_digits(head, digits.drop_last());
    }
}

/// A message that ends in a place keeps it, unless the place is in line zero: that one is
/// left out. A message that does not end in a digit is passed on as it is.
pub proof fn law_places_are_kept(message: Seq<char>, line: u64, column: u64)
    ensures
        message.len() > 0 && !text::is_digit(message.last()) ==> passed_on(message) == message,
        passed_on(
            message + " at line "@ + text::decimal(line as nat) + " column "@ + text::decimal(
                column as nat,
            ),
        ) == if line == 0 {
            message
        } else {
            message + " at line "@ + text::decimal(line as nat) + " column "@ + text::decimal(
                column as nat,
            )
        },
{
    reveal_strlit(" at line ");
    reveal_strlit(" column ");
    if message.len() > 0 && !text::is_digit(message.last()) {
        assert(message + Seq::empty() =~= message);
        lemma_tail_digits(message, Seq::empty());
        assert(message.skip(message.len() as int) =~= Seq::empty());
    }
    let l = text::decimal(line as nat);
    let c = text::decimal(column as nat);
    text::lemma_decimal_value(line as nat);
    text::lemma_decimal_value(column as nat);
    text::law_written_numbers_read_back(line);
    text::law_written_numbers_read_back(column);
    let a = message + " at line "@;
    let b = a + l + " column "@;
    let whole = b + c;
    assert(" at line "@.len() == 9 && " at line "@[8] == ' ');
    assert(" column "@.len() == 8 && " column "@[7] == ' ');
    assert(a.last() == ' ');
    assert(b.last() == ' ');
    lemma_tail_digits(b, c);
    let line_end = whole.len() - c.len() - 8;
    assert(whole.take(line_end) =~= a + l);
    lemma_tail_digits(a, l);
    assert(whole.subrange(line_end, line_end + 8) =~= " column "@);
    let start = line_end - l.len() - 9;
    assert(whole.subrange(start, start + 9) =~= " at line "@);
    assert(whole.subrange(start + 9, line_end) =~= l);
    assert(whole.skip(whole.len() - c.len()) =~= c);
    assert(whole.take(start) =~= message);
}

/// What is wrong with the first argument is told first: in a list that is the text that is
/// searched for, and among named arguments the later bound in time.
pub proof fn law_the_first_problem_is_told(args: JsonView, e: Seq<char>)
    requires
        args is Array || args is Object,
    ensures
        args is Array && optional_content(argument(args, "content"@, 0)) == Err::<
            Option<Seq<char>>,
            Seq<char>,
        >(e) ==> params_of(args) == Err::<ParamsView, Seq<char>>(e),
        args is Object && optional_timestamp(json::member(args, "after"@)) == Err::<
            Option<SearchTimestamp>,
            Seq<char>,
        >(e) ==> params_of(args) == Err::<ParamsView, Seq<char>>(e),
{
    let problems = problems_of(args);
    if problems[0] == Some(e) {
        lemma_first_is_first(problems, e);
    }
}

proof fn lemma_first_is_first(problems: Seq<Option<Seq<char>>>, e: Seq<char>)
    requires
        problems.len() > 0,
        problems[0] == Some(e),
    ensures
        first_problem(problems) == Some(e),
    decreases problems.len(),
{
    if problems.len() > 1 {
        lemma_first_is_first(problems.drop_last(), e);
    } else {
        assert(first_problem(problems.drop_last()) is None);
        assert(problems.last() == problems[0]);
    }
}

/// What is said of a date, a limit or an offset that cannot be used names it.
pub proof fn law_bad_values_are_named(date: Seq<char>, v: u64)
    ensures
        invalid_date(date) == "invalid date '"@ + date + "': expected YYYY-MM-DD"@,
        invalid_limit(v) == "search limit must be 1..=25, got "@ + text::decimal(v as nat),
        invalid_offset(v) == "search offset must be 0..=9975, got "@ + text::decimal(v as nat),
{
}

} // verus!
