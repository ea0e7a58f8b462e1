//! Who may speak to the receiver, and what may wake it.
//!
//! The access rules that predate typed policies (`allow_from`, `dm_policy` and
//! `require_mention`) translate into an admission and an attention.

use vstd::prelude::*;

verus! {

/// What becomes of direct messages.
#[derive(Clone, Copy, Debug, PartialEq, Eq, Structural)]
pub enum DmPolicy {
    /// A message from a stranger waits for approval.
    Queue,
    /// A message from a stranger is dropped.
    Drop,
    /// There are no direct messages.
    Disabled,
}

/// Whether a principal may enter the receiver's context.
#[derive(Clone, Copy, Debug, PartialEq, Eq, Structural)]
pub enum Admission {
    /// The message is let in.
    Admit,
    /// The message waits as a request for access.
    Request,
    /// The message is turned away.
    Reject,
}

/// Whether admitted traffic may wake the receiver.
#[derive(Clone, Copy, Debug, PartialEq, Eq, Structural)]
pub enum Attention {
    /// It may, mention or not.
    Normal,
    /// It may where the receiver is mentioned.
    MentionOnly,
    /// It may not.
    Quiet,
}

/// What an access rule translates into.
#[derive(Clone, Copy, Debug, PartialEq, Eq, Structural)]
pub struct LegacyPolicyTranslation {
    pub admission: Admission,
    pub attention: Attention,
}

/// What the rule of a channel says of a sender.
#[derive(Clone, Copy, Debug, PartialEq, Eq, Structural)]
pub struct LegacyGuildPolicyInput {
    /// Whether the channel has a rule.
    pub channel_is_configured: bool,
    /// Whether the rule asks for a mention.
    pub require_mention: bool,
    /// Whether the rule names the senders it lets in.
    pub identity_filter_is_active: bool,
    /// Whether it lets this sender in.
    pub sender_is_allowed: bool,
}

/// Whether a direct message is let in.
pub open spec fn dm_admission(dm_policy: DmPolicy, sender_is_allowed: bool) -> Admission {
    if dm_policy is Disabled {
        Admission::Reject
    } else if sender_is_allowed {
        Admission::Admit
    } else if dm_policy is Queue {
        Admission::Request
    } else {
        Admission::Reject
    }
}

/// Whether a message in a channel is let in.
pub open spec fn guild_admission(input: LegacyGuildPolicyInput) -> Admission {
    if input.channel_is_configured && (input.identity_filter_is_active ==> input.sender_is_allowed) {
        Admission::Admit
    } else {
        Admission::Reject
    }
}

impl LegacyPolicyTranslation {
    /// Translates the rule for direct messages.
    pub fn dm(dm_policy: DmPolicy, sender_is_allowed: bool) -> (r: Self)
        ensures
            r.admission == dm_admission(dm_policy, sender_is_allowed),
            r.attention == Attention::Normal,
            r.admission == Admission::Admit <==> sender_is_allowed && dm_policy
                != DmPolicy::Disabled,
            r.admission == Admission::Request <==> !sender_is_allowed && dm_policy
                == DmPolicy::Queue,
    {
        let admission: Admission = match (dm_policy, sender_is_allowed) {
            (DmPolicy::Disabled, _) => Admission::Reject,
            (_, true) => Admission::Admit,
            (DmPolicy::Queue, false) => Admission::Request,
            (DmPolicy::Drop, false) => Admission::Reject,
        };
        LegacyPolicyTranslation { admission, attention: Attention::Normal }
    }

    /// Translates the rule of a channel.
    pub fn guild(input: LegacyGuildPolicyInput) -> (r: Self)
        ensures
            r.admission == guild_admission(input),
            r.admission == Admission::Admit <==> input.channel_is_configured && (
            !input.identity_filter_is_active || input.sender_is_allowed),
            r.admission != Admission::Request,
            r.attention == if input.require_mention {
                Attention::MentionOnly
            } else {
                Attention::Normal
            },
    {
        let admission: Admission = if !input.channel_is_configured || (
        input.identity_filter_is_active && !input.sender_is_allowed) {
            Admission::Reject
        } else {
            Admission::Admit
        };
        let attention: Attention = if input.require_mention {
            Attention::MentionOnly
        } else {
            Attention::Normal
        };
        LegacyPolicyTranslation { admission, attention }
    }
}

/// Whatever the policy, a direct message is let in only from a sender who is allowed,
/// and where there are direct messages at all such a sender is let in. A stranger's
/// message waits under `Queue` and nowhere else, and is turned away otherwise.
pub proof fn law_strangers_are_not_let_in(dm_policy: DmPolicy)
    ensures
        dm_admission(dm_policy, false) != Admission::Admit,
        dm_admission(dm_policy, true) != Admission::Request,
        dm_admission(dm_policy, true) == Admission::Admit <==> dm_policy != DmPolicy::Disabled,
        dm_admission(DmPolicy::Queue, false) == Admission::Request,
        dm_admission(dm_policy, false) == Admission::Request ==> dm_policy == DmPolicy::Queue,
        dm_admission(DmPolicy::Drop, false) == Admission::Reject,
        forall|allowed: bool| #[trigger]
            dm_admission(DmPolicy::Disabled, allowed) == Admission::Reject,
{
}

/// Nobody is let in through a channel without a rule, nor past a rule that names whom
/// it lets in without being named; everyone else is. Nothing waits in a channel.
pub proof fn law_channels_let_in_by_their_rules(input: LegacyGuildPolicyInput)
    ensures
        !input.channel_is_configured ==> guild_admission(input) == Admission::Reject,
        input.identity_filter_is_active && !input.sender_is_allowed ==> guild_admission(input)
            == Admission::Reject,
        input.channel_is_configured && input.sender_is_allowed ==> guild_admission(input)
            == Admission::Admit,
        input.channel_is_configured && !input.identity_filter_is_active ==> guild_admission(input)
            == Admission::Admit,
{
}

/// Whether a channel asks for a mention has no bearing on who is let in.
pub proof fn law_mentions_do_not_admit(input: LegacyGuildPolicyInput, require_mention: bool)
    ensures
        guild_admission(input) == guild_admission(
            LegacyGuildPolicyInput { require_mention, ..input },
        ),
{
}

/// Whoever is let in by direct message is known and direct messages are on; a stranger may
/// at most ask to be let in.
pub proof fn law_direct_messages_are_let_in_from_friends(
    dm_policy: DmPolicy,
    sender_is_allowed: bool,
    r: LegacyPolicyTranslation,
)
    requires
        call_ensures(LegacyPolicyTranslation::dm, (dm_policy, sender_is_allowed), r),
    ensures
        r.admission == Admission::Admit ==> sender_is_allowed,
        r.admission == Admission::Admit <==> sender_is_allowed && (dm_policy == DmPolicy::Queue
            || dm_policy == DmPolicy::Drop),
        dm_policy == DmPolicy::Disabled ==> r.admission == Admission::Reject,
{
}

} // verus!
