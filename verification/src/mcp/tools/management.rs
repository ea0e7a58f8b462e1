//! Pinning, deleting and branching off messages.

use vstd::prelude::*;
use crate::gate::OutboundGate;
use crate::json::{self, Json, JsonView, Object};
use crate::mcp::tools::messaging::{self, verify_message_target, TargetVerdict, VerifyResult};
use crate::text;

verus! {

/// What is done to a message.
#[derive(Clone, Copy, Debug, PartialEq, Eq, Structural)]
pub enum Operation {
    PinMessage,
    UnpinMessage,
    CreateThread,
    DeleteMessage,
}

/// The name of an operation.
pub open spec fn operation_text(operation: Operation) -> Seq<char> {
    match operation {
        Operation::PinMessage => "pin_message"@,
        Operation::UnpinMessage => "unpin_message"@,
        Operation::CreateThread => "create_thread"@,
        Operation::DeleteMessage => "delete_message"@,
    }
}

impl Operation {
    /// The name.
    pub fn as_str(self) -> (r: &'static str)
        ensures
            r@ == operation_text(self),
    {
        match self {
            Operation::PinMessage => "pin_message",
            Operation::UnpinMessage => "unpin_message",
            Operation::CreateThread => "create_thread",
            Operation::DeleteMessage => "delete_message",
        }
    }
}

/// Whether a channel may be written to, or what is answered.
pub fn check_outbound(gate: &OutboundGate, channel_id: u64) -> (r: Result<(), Json>)
    ensures
        match r {
            Ok(_) => gate.allowed(channel_id),
            Err(e) => !gate.allowed(channel_id) && e@ == json::error_view(
                "channel not in allowlist"@,
            ),
        },
{
    if gate.check(channel_id) {
        return Ok(());
    }
    Err(Json::error("channel not in allowlist".to_owned()))
}

/// Whether an operation may go on, and the alert that it raises. The channel is
/// looked at first, then the message, where there is one: a thread may be started
/// without. `own_send` says that the construct itself posted the message.
pub fn check_operation(
    gate: &OutboundGate,
    operation: Operation,
    channel_id: u64,
    message_id: Option<u64>,
    ledger: VerifyResult,
    own_send: bool,
    canary: bool,
) -> (r: TargetVerdict)
    ensures
        if !gate.allowed(channel_id) {
            &&& r.allowed matches Err(e) && e@ == json::error_view("channel not in allowlist"@)
            &&& r.alert is None
        } else {
            match message_id {
                None => r.allowed is Ok && r.alert is None,
                Some(id) => {
                    &&& match messaging::phantom_answer(
                        ledger,
                        own_send,
                        id,
                        operation_text(operation),
                    ) {
                        Some(answer) => r.allowed matches Err(e) && e@ == json::error_view(answer),
                        None => r.allowed is Ok,
                    }
                    &&& text::text_opt(r.alert) == if canary {
                        messaging::phantom_alert(
                            ledger,
                            own_send,
                            id,
                            channel_id,
                            operation_text(operation),
                        )
                    } else {
                        None
                    }
                },
            }
        },
{
    if let Err(e) = check_outbound(gate, channel_id) {
        return TargetVerdict { allowed: Err(e), alert: None };
    }
    match message_id {
        Some(id) => verify_message_target(
            ledger,
            canary,
            id,
            channel_id,
            operation.as_str(),
            own_send,
        ),
        None => TargetVerdict { allowed: Ok(()), alert: None },
    }
}

/// What the start of a thread is answered with.
pub open spec fn thread_view(thread_id: u64, name: Seq<char>) -> JsonView {
    JsonView::Object(
        seq![
            ("ok"@, JsonView::Bool(true)),
            ("thread_id"@, json::id_view(thread_id)),
            ("name"@, JsonView::Text(name)),
        ],
    )
}

/// Takes note of a thread that was started, so that it can be written to, and
/// answers.
pub fn thread_created(
    gate: &mut OutboundGate,
    channel_id: u64,
    thread_id: u64,
    name: &str,
) -> (r: Json)
    ensures
        final(gate).channels == old(gate).channels,
        final(gate).dm_ids == old(gate).dm_ids,
        final(gate).thread_parents@ == old(gate).thread_parents@.insert(
            thread_id,
            channel_id,
        ),
        r@ == thread_view(thread_id, name@),
{
    broadcast use json::lemma_json_view;

    gate.record_thread_parent(thread_id, channel_id);
    let mut out: Object = Object::new();
    out.put("ok", Json::Bool(true));
    out.put("thread_id", Json::id(thread_id));
    out.put("name", Json::string(name));
    assert(out.fields() =~= thread_view(thread_id, name@)->Object_0);
    out.done()
}

/// No operation touches a message that never came in, unless the construct itself
/// posted it.
pub proof fn law_strange_messages_are_left_alone(message_id: u64, operation: Operation)
    ensures
        messaging::phantom_answer(
            VerifyResult::Unknown,
            false,
            message_id,
            operation_text(operation),
        ) is Some,
        messaging::phantom_answer(
            VerifyResult::Unknown,
            true,
            message_id,
            operation_text(operation),
        ) is None,
{
}

/// What is done to a message is called by its own name, and a thread that was made is told
/// by its id and its name.
pub proof fn law_operations_are_called_by_name(thread_id: u64, name: Seq<char>)
    ensures
        operation_text(Operation::PinMessage) == "pin_message"@,
        operation_text(Operation::UnpinMessage) == "unpin_message"@,
        operation_text(Operation::CreateThread) == "create_thread"@,
        operation_text(Operation::DeleteMessage) == "delete_message"@,
        thread_view(thread_id, name) == JsonView::Object(
            seq![
                ("ok"@, JsonView::Bool(true)),
                ("thread_id"@, JsonView::Text(text::decimal(thread_id as nat))),
                ("name"@, JsonView::Text(name)),
            ],
        ),
{
}

/// Nothing is done in a channel that may not be written to, and nothing is done to a
/// message that is made up.
pub proof fn law_operations_need_a_permitted_channel(
    gate: &OutboundGate,
    operation: Operation,
    channel_id: u64,
    message_id: Option<u64>,
    ledger: VerifyResult,
    own_send: bool,
    canary: bool,
    r: TargetVerdict,
)
    requires
        call_ensures(
            check_operation,
            (gate, operation, channel_id, message_id, ledger, own_send, canary),
            r,
        ),
    ensures
        !gate.allowed(channel_id) ==> r.allowed is Err && r.alert is None,
        gate.allowed(channel_id) && message_id is None ==> r.allowed is Ok,
        gate.allowed(channel_id) && message_id is Some ==> (r.allowed is Ok
            <==> messaging::phantom_answer(
            ledger,
            own_send,
            message_id->0,
            operation_text(operation),
        ) is None),
        !canary ==> r.alert is None,
{
}

} // verus!
