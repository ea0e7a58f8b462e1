//! Letting strangers in.

use vstd::prelude::*;
use crate::json::{self, Json, JsonView, Object};
use crate::table::{self, Table};
use crate::text;

verus! {

/// A stranger who wrote a direct message and waits to be let in.
#[derive(Debug, PartialEq, Eq)]
pub struct AccessRequest {
    pub user_id: u64,
    pub username: String,
    pub message_preview: String,
    /// When the message came, in the configured time zone.
    pub timestamp: String,
}

/// The strangers who wait, in the order in which they came.
pub struct AccessQueue {
    pub requests: Table<u64, AccessRequest>,
}

impl AccessQueue {
    /// The invariant.
    pub open spec fn wf(&self) -> bool {
        self.requests.wf()
    }

    /// The request of a user.
    pub open spec fn request_of(&self, user_id: u64) -> Option<AccessRequest> {
        if self.requests.map().contains_key(user_id) {
            Some(self.requests.map()[user_id])
        } else {
            None
        }
    }

    /// Nobody waits.
    pub fn new() -> (r: Self)
        ensures
            r.wf(),
            r.requests.seq() == Seq::<(u64, AccessRequest)>::empty(),
            forall|user_id: u64| #[trigger] r.request_of(user_id) is None,
    {
        AccessQueue { requests: Table::new() }
    }

    /// The request of a user, if there is one.
    pub fn peek(&self, user_id: u64) -> (r: Option<&AccessRequest>)
        requires
            self.wf(),
        ensures
            match r {
                Some(q) => self.request_of(user_id) == Some(*q),
                None => self.request_of(user_id) is None,
            },
    {
        match self.requests.find(&user_id) {
            Some(i) => Some(self.requests.value_at(i)),
            None => None,
        }
    }

    /// Takes a user's request out, if there is one. The others keep their order.
    pub fn take(&mut self, user_id: u64) -> (r: Option<AccessRequest>)
        requires
            old(self).wf(),
        ensures
            final(self).wf(),
            r == old(self).request_of(user_id),
            final(self).requests.map() == old(self).requests.map().remove(user_id),
            final(self).requests.seq() == table::without(old(self).requests.seq(), user_id),
    {
        let r: Option<AccessRequest> = self.requests.remove(&user_id);
        assert(self.requests.map() =~= old(self).requests.map().remove(user_id));
        r
    }
}

/// What is said of a user who has not asked to be let in.
pub open spec fn nobody_waits(user_id: u64) -> JsonView {
    json::error_view("no pending request for user "@ + text::decimal(user_id as nat))
}

fn nobody_waits_json(user_id: u64) -> (r: Json)
    ensures
        r@ == nobody_waits(user_id),
{
    let mut out: String = "no pending request for user ".to_owned();
    let id: String = text::decimal_string(user_id);
    out.append(id.as_str());
    Json::error(out)
}

/// A request as JSON.
pub open spec fn request_view(request: AccessRequest) -> JsonView {
    JsonView::Object(
        seq![
            ("user_id"@, json::id_view(request.user_id)),
            ("username"@, JsonView::Text(request.username@)),
            ("message_preview"@, JsonView::Text(request.message_preview@)),
            ("timestamp"@, JsonView::Text(request.timestamp@)),
        ],
    )
}

fn request_json(request: &AccessRequest) -> (r: Json)
    ensures
        r@ == request_view(*request),
{
    broadcast use json::lemma_json_view;

    let mut out: Object = Object::new();
    out.put("user_id", Json::id(request.user_id));
    out.put("username", Json::string(request.username.as_str()));
    out.put("message_preview", Json::string(request.message_preview.as_str()));
    out.put("timestamp", Json::string(request.timestamp.as_str()));
    assert(out.fields() =~= request_view(*request)->Object_0);
    out.done()
}

/// The requests, in the order in which they came.
pub open spec fn requests_view(entries: Seq<(u64, AccessRequest)>) -> JsonView {
    JsonView::Object(
        seq![
            (
                "requests"@,
                JsonView::Array(entries.map_values(|e: (u64, AccessRequest)| request_view(e.1))),
            ),
        ],
    )
}

/// Lists the requests.
pub fn list_access_requests(queue: &AccessQueue) -> (r: Json)
    requires
        queue.wf(),
    ensures
        r@ == requests_view(queue.requests.seq()),
{
    broadcast use json::lemma_json_view;

    let ghost entries = queue.requests.seq();
    let ghost shown = |e: (u64, AccessRequest)| request_view(e.1);
    let mut list: Vec<Json> = Vec::new();
    let mut i: usize = 0;
    while i < queue.requests.len()
        invariant
            queue.wf(),
            entries == queue.requests.seq(),
            i <= entries.len(),
            list@.len() == i,
            shown == (|e: (u64, AccessRequest)| request_view(e.1)),
            forall|k: int| 0 <= k < i ==> (#[trigger] list@[k])@ == shown(entries[k]),
        decreases entries.len() - i,
    {
        list.push(request_json(queue.requests.value_at(i)));
        i = i + 1;
    }
    assert(json::json_views(list@) =~= entries.map_values(shown));
    let mut out: Object = Object::new();
    out.put("requests", Json::Array(list));
    assert(out.fields() =~= requests_view(entries)->Object_0);
    out.done()
}

/// Whether a change of the configuration will outlive a crash.
#[derive(Debug, PartialEq, Eq)]
pub enum ConfigDurability {
    Durable,
    /// It is in force, but may be lost.
    Unknown { warning: String },
}

/// A change of the configuration that is in force.
#[derive(Debug, PartialEq, Eq)]
pub struct MutationOutcome {
    pub generation: u64,
    pub durability: ConfigDurability,
}

/// The name on the request of the user to be let in, who has to have asked.
pub fn begin_approval(queue: &AccessQueue, user_id: u64) -> (r: Result<String, Json>)
    requires
        queue.wf(),
    ensures
        match r {
            Ok(name) => queue.request_of(user_id) matches Some(q) && name@ == q.username@,
            Err(e) => queue.request_of(user_id) is None && e@ == nobody_waits(user_id),
        },
{
    match queue.peek(user_id) {
        Some(request) => Ok(request.username.clone()),
        None => Err(nobody_waits_json(user_id)),
    }
}

/// What an approval is answered with.
pub open spec fn approval_view(
    user_id: u64,
    username: Seq<char>,
    generation: u64,
    warning: Option<Seq<char>>,
) -> JsonView {
    JsonView::Object(
        match warning {
            Some(w) => seq![
                ("ok"@, JsonView::Bool(true)),
                ("username"@, JsonView::Text(username)),
                ("user_id"@, json::id_view(user_id)),
                ("generation"@, JsonView::Unsigned(generation)),
                ("durability"@, JsonView::Text("unknown"@)),
                ("warning"@, JsonView::Text(w)),
                ("request_retained"@, JsonView::Bool(true)),
            ],
            None => seq![
                ("ok"@, JsonView::Bool(true)),
                ("username"@, JsonView::Text(username)),
                ("user_id"@, json::id_view(user_id)),
                ("generation"@, JsonView::Unsigned(generation)),
                ("durability"@, JsonView::Text("durable"@)),
                ("request_retained"@, JsonView::Bool(false)),
            ],
        },
    )
}

/// Ends an approval, once the change of the configuration was tried. The request is
/// done with only where the change will last: else it stays, so that the approval
/// can be repeated. `username` is the name on the request.
pub fn finish_approval(
    queue: &mut AccessQueue,
    user_id: u64,
    username: &str,
    result: &Result<MutationOutcome, String>,
) -> (r: Json)
    requires
        old(queue).wf(),
    ensures
        final(queue).wf(),
        match *result {
            Err(e) => {
                &&& r@ == json::error_view("failed to persist config: "@ + e@)
                &&& *final(queue) == *old(queue)
            },
            Ok(outcome) => match outcome.durability {
                ConfigDurability::Unknown { warning } => {
                    &&& r@ == approval_view(
                        user_id,
                        username@,
                        outcome.generation,
                        Some(warning@),
                    )
                    &&& *final(queue) == *old(queue)
                },
                ConfigDurability::Durable => {
                    &&& r@ == approval_view(user_id, username@, outcome.generation, None)
                    &&& final(queue).requests.map() == old(queue).requests.map().remove(user_id)
                    &&& final(queue).requests.seq() == table::without(
                        old(queue).requests.seq(),
                        user_id,
                    )
                },
            },
        },
{
    broadcast use json::lemma_json_view;

    let outcome: &MutationOutcome = match result {
        Ok(outcome) => outcome,
        Err(e) => {
            let mut message: String = "failed to persist config: ".to_owned();
            message.append(e.as_str());
            return Json::error(message);
        },
    };
    let mut out: Object = Object::new();
    out.put("ok", Json::Bool(true));
    out.put("username", Json::string(username));
    out.put("user_id", Json::id(user_id));
    out.put("generation", Json::Unsigned(outcome.generation));
    match &outcome.durability {
        ConfigDurability::Unknown { warning } => {
            out.put("durability", Json::string("unknown"));
            out.put("warning", Json::string(warning.as_str()));
            out.put("request_retained", Json::Bool(true));
            assert(out.fields() =~= approval_view(
                user_id,
                username@,
                outcome.generation,
                Some(warning@),
            )->Object_0);
        },
        ConfigDurability::Durable => {
            let _ = queue.take(user_id);
            out.put("durability", Json::string("durable"));
            out.put("request_retained", Json::Bool(false));
            assert(out.fields() =~= approval_view(
                user_id,
                username@,
                outcome.generation,
                None,
            )->Object_0);
        },
    }
    out.done()
}

/// What a denial is answered with.
pub open spec fn denial_view(request: AccessRequest, user_id: u64) -> JsonView {
    JsonView::Object(
        seq![
            ("ok"@, JsonView::Bool(true)),
            ("username"@, JsonView::Text(request.username@)),
            ("user_id"@, json::id_view(user_id)),
        ],
    )
}

/// Turns a stranger away.
pub fn deny_access(queue: &mut AccessQueue, user_id: u64) -> (r: Json)
    requires
        old(queue).wf(),
    ensures
        final(queue).wf(),
        final(queue).requests.map() == old(queue).requests.map().remove(user_id),
        final(queue).requests.seq() == table::without(old(queue).requests.seq(), user_id),
        r@ == match old(queue).request_of(user_id) {
            Some(request) => denial_view(request, user_id),
            None => nobody_waits(user_id),
        },
{
    broadcast use json::lemma_json_view;

    match queue.take(user_id) {
        Some(request) => {
            let mut out: Object = Object::new();
            out.put("ok", Json::Bool(true));
            out.put("username", Json::string(request.username.as_str()));
            out.put("user_id", Json::id(user_id));
            assert(out.fields() =~= denial_view(request, user_id)->Object_0);
            out.done()
        },
        None => nobody_waits_json(user_id),
    }
}

/// Those who wait are listed in the order in which they came, each by id and by name,
/// with what they said and when.
pub proof fn law_requests_are_listed_in_order(entries: Seq<(u64, AccessRequest)>, i: int)
    requires
        0 <= i < entries.len(),
    ensures
        requests_view(entries) matches JsonView::Object(fields) && fields.len() == 1 && fields[0].0
            == "requests"@ && (fields[0].1 matches JsonView::Array(list) && list.len()
            == entries.len() && list[i] == JsonView::Object(
            seq![
                ("user_id"@, JsonView::Text(text::decimal(entries[i].1.user_id as nat))),
                ("username"@, JsonView::Text(entries[i].1.username@)),
                ("message_preview"@, JsonView::Text(entries[i].1.message_preview@)),
                ("timestamp"@, JsonView::Text(entries[i].1.timestamp@)),
            ],
        )),
{
}

/// An approval tells whether it will last: where that is not known, it says so, warns,
/// and says that the request is still there; else that it is done with.
pub proof fn law_approvals_tell_whether_they_last(
    user_id: u64,
    username: Seq<char>,
    generation: u64,
    warning: Option<Seq<char>>,
)
    ensures
        approval_view(user_id, username, generation, warning) matches JsonView::Object(fields) && {
            &&& fields[0] == ("ok"@, JsonView::Bool(true))
            &&& fields[1] == ("username"@, JsonView::Text(username))
            &&& fields[2] == ("user_id"@, JsonView::Text(text::decimal(user_id as nat)))
            &&& fields[3] == ("generation"@, JsonView::Unsigned(generation))
            &&& fields[4] == (
                "durability"@,
                JsonView::Text(
                    if warning is Some {
                        "unknown"@
                    } else {
                        "durable"@
                    },
                ),
            )
            &&& fields.last() == ("request_retained"@, JsonView::Bool(warning is Some))
            &&& warning matches Some(w) ==> fields[5] == ("warning"@, JsonView::Text(w))
        },
{
}

/// A request is found under the user who made it, and under nobody else.
pub proof fn law_requests_are_found_by_user(queue: AccessQueue, user_id: u64)
    ensures
        queue.request_of(user_id) is Some <==> queue.requests.map().contains_key(user_id),
        queue.request_of(user_id) matches Some(r) ==> r == queue.requests.map()[user_id],
{
}

/// A denial names the stranger who was turned away.
pub proof fn law_denials_name_the_stranger(request: AccessRequest, user_id: u64)
    ensures
        denial_view(request, user_id) matches JsonView::Object(fields) && fields.len() == 3
            && fields[0] == ("ok"@, JsonView::Bool(true)) && fields[1] == (
            "username"@,
            JsonView::Text(request.username@),
        ) && fields[2] == ("user_id"@, JsonView::Text(text::decimal(user_id as nat))),
{
}

/// An approval begins for somebody who waits, by the name under which they asked, and for
/// nobody else.
pub proof fn law_only_those_who_wait_are_approved(
    queue: &AccessQueue,
    user_id: u64,
    r: Result<String, Json>,
)
    requires
        queue.wf(),
        call_ensures(begin_approval, (queue, user_id), r),
    ensures
        r is Ok <==> queue.request_of(user_id) is Some,
        r matches Ok(name) ==> name@ == queue.request_of(user_id)->0.username@,
{
}

} // verus!
