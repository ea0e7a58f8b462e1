//! Asking the administrators whether a tool may be used.

use std::collections::HashMap;
use vstd::prelude::*;
use crate::clock::Timestamp;
use crate::gate::contains_id;
use crate::text;

verus! {

/// Why a request for permission, or an answer to one, goes nowhere.
#[derive(Debug, PartialEq, Eq)]
pub enum PermissionError {
    NoAdmins,
    Http(String),
    NotFound,
    NotAdmin,
}

impl PermissionError {
    /// What is said of it.
    pub open spec fn message(&self) -> Seq<char> {
        match self {
            PermissionError::NoAdmins => "no admins configured"@,
            PermissionError::Http(e) => "Discord HTTP error: "@ + e@,
            PermissionError::NotFound => "permission request not found"@,
            PermissionError::NotAdmin => "user is not an admin"@,
        }
    }

    /// What is said of it.
    pub fn to_string(&self) -> (r: String)
        ensures
            r@ == self.message(),
    {
        match self {
            PermissionError::NoAdmins => "no admins configured".to_owned(),
            PermissionError::Http(e) => {
                let mut out: String = "Discord HTTP error: ".to_owned();
                out.append(e.as_str());
                out
            },
            PermissionError::NotFound => "permission request not found".to_owned(),
            PermissionError::NotAdmin => "user is not an admin".to_owned(),
        }
    }
}

/// The question that every administrator is asked.
pub struct PermissionPrompt {
    pub content: String,
    /// What the button that allows it is called by.
    pub allow_id: String,
    /// What the button that denies it is called by.
    pub deny_id: String,
}

/// The text of the question.
pub open spec fn prompt_text(
    request_id: Seq<char>,
    tool_name: Seq<char>,
    description: Seq<char>,
    input_preview: Seq<char>,
) -> Seq<char> {
    "**Permission request** — tool `"@ + tool_name + "`\nDescription: "@ + description
        + "\nInput preview:\n```\n"@ + input_preview + "\n```\nRequest ID: `"@ + request_id + "`"@
}

/// The question that every administrator is asked, if there is one to ask.
pub fn permission_prompt(
    admin_ids: &Vec<u64>,
    request_id: &str,
    tool_name: &str,
    description: &str,
    input_preview: &str,
) -> (r: Result<PermissionPrompt, PermissionError>)
    ensures
        if admin_ids@.len() == 0 {
            r matches Err(e) && e is NoAdmins
        } else {
            r matches Ok(p) && p.content@ == prompt_text(
                request_id@,
                tool_name@,
                description@,
                input_preview@,
            ) && p.allow_id@ == "perm:allow:"@ + request_id@ && p.deny_id@ == "perm:deny:"@
                + request_id@
        },
{
    if admin_ids.len() == 0 {
        return Err(PermissionError::NoAdmins);
    }
    let mut content: String = "**Permission request** — tool `".to_owned();
    content.append(tool_name);
    content.append("`\nDescription: ");
    content.append(description);
    content.append("\nInput preview:\n```\n");
    content.append(input_preview);
    content.append("\n```\nRequest ID: `");
    content.append(request_id);
    content.append("`");
    let mut allow_id: String = "perm:allow:".to_owned();
    allow_id.append(request_id);
    let mut deny_id: String = "perm:deny:".to_owned();
    deny_id.append(request_id);
    Ok(PermissionPrompt { content, allow_id, deny_id })
}

/// A question that was posted and has not been answered.
#[derive(Debug, PartialEq, Eq)]
pub struct PendingPermission {
    pub request_id: String,
    pub channel_id: u64,
    pub created_at: Timestamp,
}

/// The questions that were posted, by the messages that they were posted in.
pub struct PendingPermissions {
    pub asked: HashMap<u64, PendingPermission>,
}

impl PendingPermissions {
    /// The request that a message asks about.
    pub open spec fn request_of(&self, message_id: u64) -> Option<Seq<char>> {
        if self.asked@.contains_key(message_id) {
            Some(self.asked@[message_id].request_id@)
        } else {
            None
        }
    }

    /// No questions.
    pub fn new() -> (r: Self)
        ensures
            forall|message_id: u64| #[trigger] r.request_of(message_id) is None,
    {
        PendingPermissions { asked: HashMap::new() }
    }

    /// Takes note of a question that was posted.
    pub fn note_asked(
        &mut self,
        message_id: u64,
        channel_id: u64,
        request_id: &str,
        created_at: Timestamp,
    )
        ensures
            final(self).asked@.dom() == old(self).asked@.dom().insert(message_id),
            final(self).request_of(message_id) == Some(request_id@),
            final(self).asked@[message_id].channel_id == channel_id,
            final(self).asked@[message_id].created_at == created_at,
            forall|other: u64|
                other != message_id ==> #[trigger] final(self).request_of(other) == old(
                    self,
                ).request_of(other),
    {
        self.asked.insert(
            message_id,
            PendingPermission { request_id: request_id.to_owned(), channel_id, created_at },
        );
        assert(self.asked@.dom() =~= old(self).asked@.dom().insert(message_id));
    }
}

/// The request that an answer is about. Only administrators may answer.
pub fn validate_response(
    pending: &PendingPermissions,
    admin_ids: &Vec<u64>,
    message_id: u64,
    user_id: u64,
) -> (r: Result<String, PermissionError>)
    ensures
        match r {
            Ok(id) => admin_ids@.contains(user_id) && pending.request_of(message_id) == Some(id@),
            Err(e) => if !admin_ids@.contains(user_id) {
                e is NotAdmin
            } else {
                e is NotFound && pending.request_of(message_id) is None
            },
        },
{
    if !contains_id(admin_ids, user_id) {
        return Err(PermissionError::NotAdmin);
    }
    match pending.asked.get(&message_id) {
        Some(asked) => Ok(asked.request_id.clone()),
        None => Err(PermissionError::NotFound),
    }
}

/// The question names the tool and the request, and shows what the tool is for and what it
/// is given.
pub proof fn law_questions_show_what_is_asked(
    request_id: Seq<char>,
    tool_name: Seq<char>,
    description: Seq<char>,
    input_preview: Seq<char>,
)
    ensures
        ({
            let text = prompt_text(request_id, tool_name, description, input_preview);
            &&& text::occurs(text, tool_name)
            &&& text::occurs(text, description)
            &&& text::occurs(text, input_preview)
            &&& text::occurs(text, request_id)
        }),
{
    let text = prompt_text(request_id, tool_name, description, input_preview);
    let a = "**Permission request** — tool `"@.len() as int;
    let b = a + tool_name.len() + "`\nDescription: "@.len();
    let c = b + description.len() + "\nInput preview:\n```\n"@.len();
    let d = c + input_preview.len() + "\n```\nRequest ID: `"@.len();
    assert(text.subrange(a, a + tool_name.len()) =~= tool_name);
    assert(text::occurs_at(text, tool_name, a));
    assert(text.subrange(b, b + description.len()) =~= description);
    assert(text::occurs_at(text, description, b));
    assert(text.subrange(c, c + input_preview.len()) =~= input_preview);
    assert(text::occurs_at(text, input_preview, c));
    assert(text.subrange(d, d + request_id.len()) =~= request_id);
    assert(text::occurs_at(text, request_id, d));
}

/// A message asks about the request that it was posted for, and about none where it was
/// not posted to ask.
pub proof fn law_questions_are_found_by_message(pending: PendingPermissions, message_id: u64)
    ensures
        pending.request_of(message_id) is Some <==> pending.asked@.contains_key(message_id),
        pending.asked@.contains_key(message_id) ==> pending.request_of(message_id) == Some(
            pending.asked@[message_id].request_id@,
        ),
{
}

/// Only an administrator answers, and only what was asked: the answer is for the request
/// that the message asked about.
pub proof fn law_only_administrators_answer(
    pending: &PendingPermissions,
    admin_ids: &Vec<u64>,
    message_id: u64,
    user_id: u64,
    r: Result<String, PermissionError>,
)
    requires
        call_ensures(validate_response, (pending, admin_ids, message_id, user_id), r),
    ensures
        r is Ok <==> admin_ids@.contains(user_id) && pending.request_of(message_id) is Some,
        r matches Ok(id) ==> pending.request_of(message_id) == Some(id@),
        !admin_ids@.contains(user_id) ==> r->Err_0 is NotAdmin,
        admin_ids@.contains(user_id) && pending.request_of(message_id) is None ==> r->Err_0 is NotFound,
{
}

/// Where there is nobody to ask, nothing is asked; else both answers name the request.
pub proof fn law_somebody_is_asked(
    admin_ids: &Vec<u64>,
    request_id: &str,
    tool_name: &str,
    description: &str,
    input_preview: &str,
    r: Result<PermissionPrompt, PermissionError>,
)
    requires
        call_ensures(
            permission_prompt,
            (admin_ids, request_id, tool_name, description, input_preview),
            r,
        ),
    ensures
        r is Err <==> admin_ids@.len() == 0,
        r matches Ok(p) ==> p.allow_id@ == "perm:allow:"@ + request_id@ && p.deny_id@
            == "perm:deny:"@ + request_id@,
{
}

} // verus!
