//! How the bot presents itself.

use vstd::prelude::*;
use crate::clock::{self, Timestamp};
use crate::gate::OutboundGate;
use crate::json::{self, Json, JsonView, Object};
use crate::mcp::tools::management;
use crate::text;

verus! {

// ── Words ───────────────────────────────────────────────────────────────────

/// Whether the bot is there.
#[derive(Clone, Copy, Debug, PartialEq, Eq, Structural)]
pub enum OnlineStatus {
    Online,
    Idle,
    Dnd,
    Invisible,
}

/// The word for a status.
pub open spec fn status_text(status: OnlineStatus) -> Seq<char> {
    match status {
        OnlineStatus::Online => "online"@,
        OnlineStatus::Idle => "idle"@,
        OnlineStatus::Dnd => "dnd"@,
        OnlineStatus::Invisible => "invisible"@,
    }
}

/// The words for all statuses.
pub open spec fn status_words() -> Seq<Seq<char>> {
    seq!["online"@, "idle"@, "dnd"@, "invisible"@]
}

/// What a word stands for.
pub open spec fn status_named(word: Seq<char>) -> Option<OnlineStatus> {
    if word == "online"@ {
        Some(OnlineStatus::Online)
    } else if word == "idle"@ {
        Some(OnlineStatus::Idle)
    } else if word == "dnd"@ {
        Some(OnlineStatus::Dnd)
    } else if word == "invisible"@ {
        Some(OnlineStatus::Invisible)
    } else {
        None
    }
}

impl OnlineStatus {
    /// All statuses.
    pub fn all() -> (r: Vec<OnlineStatus>)
        ensures
            r@ == seq![
                OnlineStatus::Online,
                OnlineStatus::Idle,
                OnlineStatus::Dnd,
                OnlineStatus::Invisible,
            ],
    {
        let r: Vec<OnlineStatus> = vec![
            OnlineStatus::Online,
            OnlineStatus::Idle,
            OnlineStatus::Dnd,
            OnlineStatus::Invisible,
        ];
        assert(r@ =~= seq![
            OnlineStatus::Online,
            OnlineStatus::Idle,
            OnlineStatus::Dnd,
            OnlineStatus::Invisible,
        ]);
        r
    }

    fn words() -> (r: Vec<String>)
        ensures
            text::texts(r@) == status_words(),
    {
        let r: Vec<String> = vec![
            "online".to_owned(),
            "idle".to_owned(),
            "dnd".to_owned(),
            "invisible".to_owned(),
        ];
        assert(text::texts(r@) =~= status_words());
        r
    }

    /// The words for all statuses as JSON.
    pub fn json_enum() -> (r: Json)
        ensures
            r@ == json::strings_view(status_words()),
    {
        json::strings(&OnlineStatus::words())
    }

    /// The word for the status.
    pub fn to_string(&self) -> (r: String)
        ensures
            r@ == status_text(*self),
    {
        match self {
            OnlineStatus::Online => "online".to_owned(),
            OnlineStatus::Idle => "idle".to_owned(),
            OnlineStatus::Dnd => "dnd".to_owned(),
            OnlineStatus::Invisible => "invisible".to_owned(),
        }
    }

    /// The status that a word stands for.
    pub fn from_str(s: &str) -> (r: Result<OnlineStatus, String>)
        ensures
            status_named(s@) == (match r {
                Ok(x) => Some(x),
                Err(_) => None,
            }),
            match r {
                Ok(status) => s@ == status_text(status),
                Err(e) => {
                    &&& forall|status: OnlineStatus| s@ != #[trigger] status_text(status)
                    &&& e@ == "invalid online_status: "@ + s@ + "; must be one of: "@
                        + text::joined(status_words(), ", "@)
                },
            },
    {
        if text::str_eq(s, "online") {
            return Ok(OnlineStatus::Online);
        }
        if text::str_eq(s, "idle") {
            return Ok(OnlineStatus::Idle);
        }
        if text::str_eq(s, "dnd") {
            return Ok(OnlineStatus::Dnd);
        }
        if text::str_eq(s, "invisible") {
            return Ok(OnlineStatus::Invisible);
        }
        let words: Vec<String> = OnlineStatus::words();
        let list: String = text::join(&words, ", ");
        let mut e: String = "invalid online_status: ".to_owned();
        e.append(s);
        e.append("; must be one of: ");
        e.append(list.as_str());
        Err(e)
    }
}

/// What the bot is shown as doing.
#[derive(Clone, Copy, Debug, PartialEq, Eq, Structural)]
pub enum ActivityType {
    Playing,
    Watching,
    Listening,
    Competing,
    Custom,
}

/// The word for an activity.
pub open spec fn activity_text(activity: ActivityType) -> Seq<char> {
    match activity {
        ActivityType::Playing => "playing"@,
        ActivityType::Watching => "watching"@,
        ActivityType::Listening => "listening"@,
        ActivityType::Competing => "competing"@,
        ActivityType::Custom => "custom"@,
    }
}

/// The words for all activities.
pub open spec fn activity_words() -> Seq<Seq<char>> {
    seq!["playing"@, "watching"@, "listening"@, "competing"@, "custom"@]
}

/// What a word stands for.
pub open spec fn activity_named(word: Seq<char>) -> Option<ActivityType> {
    if word == "playing"@ {
        Some(ActivityType::Playing)
    } else if word == "watching"@ {
        Some(ActivityType::Watching)
    } else if word == "listening"@ {
        Some(ActivityType::Listening)
    } else if word == "competing"@ {
        Some(ActivityType::Competing)
    } else if word == "custom"@ {
        Some(ActivityType::Custom)
    } else {
        None
    }
}

impl ActivityType {
    /// All activities.
    pub fn all() -> (r: Vec<ActivityType>)
        ensures
            r@ == seq![
                ActivityType::Playing,
                ActivityType::Watching,
                ActivityType::Listening,
                ActivityType::Competing,
                ActivityType::Custom,
            ],
    {
        let r: Vec<ActivityType> = vec![
            ActivityType::Playing,
            ActivityType::Watching,
            ActivityType::Listening,
            ActivityType::Competing,
            ActivityType::Custom,
        ];
        assert(r@ =~= seq![
            ActivityType::Playing,
            ActivityType::Watching,
            ActivityType::Listening,
            ActivityType::Competing,
            ActivityType::Custom,
        ]);
        r
    }

    fn words() -> (r: Vec<String>)
        ensures
            text::texts(r@) == activity_words(),
    {
        let r: Vec<String> = vec![
            "playing".to_owned(),
            "watching".to_owned(),
            "listening".to_owned(),
            "competing".to_owned(),
            "custom".to_owned(),
        ];
        assert(text::texts(r@) =~= activity_words());
        r
    }

    /// The words for all activities as JSON.
    pub fn json_enum() -> (r: Json)
        ensures
            r@ == json::strings_view(activity_words()),
    {
        json::strings(&ActivityType::words())
    }

    /// The word for the activity.
    pub fn to_string(&self) -> (r: String)
        ensures
            r@ == activity_text(*self),
    {
        match self {
            ActivityType::Playing => "playing".to_owned(),
            ActivityType::Watching => "watching".to_owned(),
            ActivityType::Listening => "listening".to_owned(),
            ActivityType::Competing => "competing".to_owned(),
            ActivityType::Custom => "custom".to_owned(),
        }
    }

    /// The activity that a word stands for.
    pub fn from_str(s: &str) -> (r: Result<ActivityType, String>)
        ensures
            activity_named(s@) == (match r {
                Ok(x) => Some(x),
                Err(_) => None,
            }),
            match r {
                Ok(activity) => s@ == activity_text(activity),
                Err(e) => {
                    &&& forall|activity: ActivityType| s@ != #[trigger] activity_text(activity)
                    &&& e@ == "invalid activity_type: "@ + s@ + "; must be one of: "@
                        + text::joined(activity_words(), ", "@)
                },
            },
    {
        if text::str_eq(s, "playing") {
            return Ok(ActivityType::Playing);
        }
        if text::str_eq(s, "watching") {
            return Ok(ActivityType::Watching);
        }
        if text::str_eq(s, "listening") {
            return Ok(ActivityType::Listening);
        }
        if text::str_eq(s, "competing") {
            return Ok(ActivityType::Competing);
        }
        if text::str_eq(s, "custom") {
            return Ok(ActivityType::Custom);
        }
        let words: Vec<String> = ActivityType::words();
        let list: String = text::join(&words, ", ");
        let mut e: String = "invalid activity_type: ".to_owned();
        e.append(s);
        e.append("; must be one of: ");
        e.append(list.as_str());
        Err(e)
    }

    /// The activity with its text, as Discord takes it.
    pub fn to_activity(self, name: &str) -> (r: ActivityInfo)
        ensures
            r@ == activity_of(self, name@),
    {
        match self {
            ActivityType::Playing => ActivityInfo {
                kind: ActivityKind::Playing,
                name: name.to_owned(),
                state: None,
            },
            ActivityType::Watching => ActivityInfo {
                kind: ActivityKind::Watching,
                name: name.to_owned(),
                state: None,
            },
            ActivityType::Listening => ActivityInfo {
                kind: ActivityKind::Listening,
                name: name.to_owned(),
                state: None,
            },
            ActivityType::Competing => ActivityInfo {
                kind: ActivityKind::Competing,
                name: name.to_owned(),
                state: None,
            },
            ActivityType::Custom => ActivityInfo {
                kind: ActivityKind::Custom,
                name: "~".to_owned(),
                state: Some(name.to_owned()),
            },
        }
    }
}

// ── Presence ────────────────────────────────────────────────────────────────

/// A status as Discord knows it.
#[derive(Clone, Copy, Debug, PartialEq, Eq, Structural)]
pub enum PresenceStatus {
    Online,
    Idle,
    DoNotDisturb,
    Invisible,
    Offline,
    Unknown,
}

/// The kind of an activity as Discord knows it.
#[derive(Clone, Copy, Debug, PartialEq, Eq, Structural)]
pub enum ActivityKind {
    Playing,
    Watching,
    Listening,
    Competing,
    Custom,
    Unknown,
}

/// An activity as Discord takes it. A custom one has its text in `state`: Discord
/// shows nothing of its name.
#[derive(Debug, PartialEq, Eq)]
pub struct ActivityInfo {
    pub kind: ActivityKind,
    pub name: String,
    pub state: Option<String>,
}

/// An [`ActivityInfo`] as a value.
#[verifier::ext_equal]
pub struct ActivityView {
    pub kind: ActivityKind,
    pub name: Seq<char>,
    pub state: Option<Seq<char>>,
}

impl View for ActivityInfo {
    type V = ActivityView;

    open spec fn view(&self) -> ActivityView {
        ActivityView { kind: self.kind, name: self.name@, state: text::text_opt(self.state) }
    }
}

/// The kind of activity that is asked for.
pub open spec fn kind_of(activity: ActivityType) -> ActivityKind {
    match activity {
        ActivityType::Playing => ActivityKind::Playing,
        ActivityType::Watching => ActivityKind::Watching,
        ActivityType::Listening => ActivityKind::Listening,
        ActivityType::Competing => ActivityKind::Competing,
        ActivityType::Custom => ActivityKind::Custom,
    }
}

/// An activity with its text.
pub open spec fn activity_of(activity: ActivityType, name: Seq<char>) -> ActivityView {
    ActivityView {
        kind: kind_of(activity),
        name: if activity is Custom {
            "~"@
        } else {
            name
        },
        state: if activity is Custom {
            Some(name)
        } else {
            None
        },
    }
}

/// The status that is asked for, as Discord knows it.
pub open spec fn discord_status(status: OnlineStatus) -> PresenceStatus {
    match status {
        OnlineStatus::Online => PresenceStatus::Online,
        OnlineStatus::Idle => PresenceStatus::Idle,
        OnlineStatus::Dnd => PresenceStatus::DoNotDisturb,
        OnlineStatus::Invisible => PresenceStatus::Invisible,
    }
}

impl OnlineStatus {
    /// The status as Discord knows it.
    pub fn to_discord(self) -> (r: PresenceStatus)
        ensures
            r == discord_status(self),
    {
        match self {
            OnlineStatus::Online => PresenceStatus::Online,
            OnlineStatus::Idle => PresenceStatus::Idle,
            OnlineStatus::Dnd => PresenceStatus::DoNotDisturb,
            OnlineStatus::Invisible => PresenceStatus::Invisible,
        }
    }
}

/// What the task that talks to the gateway can be told to do.
#[derive(Debug, PartialEq, Eq)]
pub enum DiscordCommand {
    SetPresence {
        online_status: OnlineStatus,
        activity_type: Option<ActivityType>,
        activity_name: Option<String>,
    },
}

/// A presence that was asked for, with the words read.
pub struct PresenceRequest {
    pub online_status: OnlineStatus,
    pub activity_type: Option<ActivityType>,
    pub activity_name: Option<String>,
}

impl PresenceRequest {
    /// An activity has its text.
    pub open spec fn wf(&self) -> bool {
        self.activity_type is Some ==> self.activity_name is Some
    }

    /// The activity to be shown.
    pub open spec fn activity_view(&self) -> Option<ActivityView> {
        match (self.activity_type, self.activity_name) {
            (Some(kind), Some(name)) => Some(activity_of(kind, name@)),
            _ => None,
        }
    }

    /// The activity to be shown.
    pub fn activity(&self) -> (r: Option<ActivityInfo>)
        ensures
            match r {
                Some(a) => self.activity_view() == Some(a@),
                None => self.activity_view() is None,
            },
    {
        match (self.activity_type, &self.activity_name) {
            (Some(kind), Some(name)) => Some(kind.to_activity(name.as_str())),
            _ => None,
        }
    }

    /// The command that asks the gateway's task for it.
    pub fn command(self) -> (r: DiscordCommand)
        ensures
            r == (DiscordCommand::SetPresence {
                online_status: self.online_status,
                activity_type: self.activity_type,
                activity_name: self.activity_name,
            }),
    {
        DiscordCommand::SetPresence {
            online_status: self.online_status,
            activity_type: self.activity_type,
            activity_name: self.activity_name,
        }
    }
}

/// Whether a word stands for a status.
pub open spec fn names_status(word: Seq<char>) -> bool {
    exists|status: OnlineStatus| word == #[trigger] status_text(status)
}

/// Whether a word stands for an activity.
pub open spec fn names_activity(word: Seq<char>) -> bool {
    exists|activity: ActivityType| word == #[trigger] activity_text(activity)
}

/// What is wrong with the words of a presence, if anything is.
pub open spec fn presence_problem(
    online_status: Seq<char>,
    activity_type: Option<Seq<char>>,
    named: bool,
) -> Option<Seq<char>> {
    if !names_status(online_status) {
        Some(
            "invalid online_status: "@ + online_status + "; must be one of: "@ + text::joined(
                status_words(),
                ", "@,
            ),
        )
    } else {
        match activity_type {
            Some(word) => if !names_activity(word) {
                Some(
                    "invalid activity_type: "@ + word + "; must be one of: "@ + text::joined(
                        activity_words(),
                        ", "@,
                    ),
                )
            } else if !named {
                Some("activity_name is required when activity_type is set"@)
            } else {
                None
            },
            None => None,
        }
    }
}

/// Reads the words of a presence that is asked for, or says what is wrong with
/// them. Nothing has been touched by then.
pub fn read_presence(
    online_status: &str,
    activity_type: Option<&str>,
    activity_name: Option<&str>,
) -> (r: Result<PresenceRequest, Json>)
    ensures
        if presence_problem(
            online_status@,
            text::str_opt(activity_type),
            activity_name is Some,
        ) is Some {
            r matches Err(e) && e@ == json::error_view(
                presence_problem(
                    online_status@,
                    text::str_opt(activity_type),
                    activity_name is Some,
                )->0,
            )
        } else {
            &&& r matches Ok(p)
            &&& p.wf()
            &&& status_text(p.online_status) == online_status@
            &&& status_named(online_status@) == Some(p.online_status)
            &&& match activity_type {
                Some(word) => p.activity_type matches Some(a) && activity_text(a) == word@
                    && activity_named(word@) == Some(a),
                None => p.activity_type is None,
            }
            &&& match activity_name {
                Some(name) => p.activity_name matches Some(n) && n@ == name@,
                None => p.activity_name is None,
            }
        },
{
    let status: OnlineStatus = match OnlineStatus::from_str(online_status) {
        Ok(s) => s,
        Err(e) => {
            return Err(Json::error(e));
        },
    };
    assert(online_status@ == status_text(status));
    let mut kind: Option<ActivityType> = None;
    if let Some(word) = activity_type {
        match ActivityType::from_str(word) {
            Ok(a) => {
                assert(word@ == activity_text(a));
                kind = Some(a);
            },
            Err(e) => {
                return Err(Json::error(e));
            },
        }
        if activity_name.is_none() {
            return Err(
                Json::error("activity_name is required when activity_type is set".to_owned()),
            );
        }
    }
    let name: Option<String> = match activity_name {
        Some(n) => Some(n.to_owned()),
        None => None,
    };
    Ok(PresenceRequest { online_status: status, activity_type: kind, activity_name: name })
}

/// A presence that was asked for since the process started.
#[derive(Debug, PartialEq, Eq)]
pub struct DesiredPresence {
    pub status: PresenceStatus,
    pub activity: Option<ActivityInfo>,
    pub set_at: Timestamp,
}

/// What is known of the presence.
#[derive(Debug, PartialEq, Eq)]
pub struct PresenceSnapshot {
    pub desired: Option<DesiredPresence>,
    /// Whether a connection to show it through has been there since the gateway was
    /// last ready. It may have been lost meanwhile.
    pub sink_installed: bool,
}

impl PresenceSnapshot {
    /// Nothing was asked for.
    pub fn new() -> (r: Self)
        ensures
            r.desired is None,
            !r.sink_installed,
    {
        PresenceSnapshot { desired: None, sink_installed: false }
    }

    /// Takes note of the presence that is asked for.
    pub fn set_presence(&mut self, request: &PresenceRequest, at: Timestamp)
        ensures
            final(self).sink_installed == old(self).sink_installed,
            final(self).desired matches Some(d) && d.status == discord_status(
                request.online_status,
            ) && d.set_at == at && match d.activity {
                Some(a) => request.activity_view() == Some(a@),
                None => request.activity_view() is None,
            },
    {
        self.desired =
        Some(
            DesiredPresence {
                status: request.online_status.to_discord(),
                activity: request.activity(),
                set_at: at,
            },
        );
    }
}

/// The word for a status that is shown.
pub open spec fn shown_status(status: PresenceStatus) -> Seq<char> {
    match status {
        PresenceStatus::Online => "online"@,
        PresenceStatus::Idle => "idle"@,
        PresenceStatus::DoNotDisturb => "dnd"@,
        PresenceStatus::Invisible => "invisible"@,
        PresenceStatus::Offline => "offline"@,
        PresenceStatus::Unknown => "unknown"@,
    }
}

fn shown_status_str(status: PresenceStatus) -> (r: &'static str)
    ensures
        r@ == shown_status(status),
{
    match status {
        PresenceStatus::Online => "online",
        PresenceStatus::Idle => "idle",
        PresenceStatus::DoNotDisturb => "dnd",
        PresenceStatus::Invisible => "invisible",
        PresenceStatus::Offline => "offline",
        PresenceStatus::Unknown => "unknown",
    }
}

/// The word for the kind of an activity that is shown.
pub open spec fn shown_kind(kind: ActivityKind) -> Seq<char> {
    match kind {
        ActivityKind::Playing => "playing"@,
        ActivityKind::Watching => "watching"@,
        ActivityKind::Listening => "listening"@,
        ActivityKind::Competing => "competing"@,
        ActivityKind::Custom => "custom"@,
        ActivityKind::Unknown => "unknown"@,
    }
}

fn shown_kind_str(kind: ActivityKind) -> (r: &'static str)
    ensures
        r@ == shown_kind(kind),
{
    match kind {
        ActivityKind::Playing => "playing",
        ActivityKind::Watching => "watching",
        ActivityKind::Listening => "listening",
        ActivityKind::Competing => "competing",
        ActivityKind::Custom => "custom",
        ActivityKind::Unknown => "unknown",
    }
}

/// The text of an activity that is shown: a custom one's state, where it has one.
pub open spec fn shown_name(activity: ActivityView) -> Seq<char> {
    match activity.state {
        Some(s) if activity.kind is Custom => s,
        _ => activity.name,
    }
}

/// What is known of the presence, as JSON.
pub open spec fn snapshot_view(snap: PresenceSnapshot) -> JsonView {
    JsonView::Object(
        match snap.desired {
            None => seq![
                ("set_this_process"@, JsonView::Bool(false)),
                ("sink_installed"@, JsonView::Bool(snap.sink_installed)),
                (
                    "note"@,
                    JsonView::Text(
                        "no presence has been requested since this process started; Discord is showing the gateway default. sink_installed reports whether a shard messenger has been installed since the last gateway ready — disconnects are not tracked"@,
                    ),
                ),
            ],
            Some(d) => seq![
                ("set_this_process"@, JsonView::Bool(true)),
                ("online_status"@, JsonView::Text(shown_status(d.status))),
                (
                    "activity_type"@,
                    match d.activity {
                        Some(a) => JsonView::Text(shown_kind(a.kind)),
                        None => JsonView::Null,
                    },
                ),
                (
                    "activity_name"@,
                    match d.activity {
                        Some(a) => JsonView::Text(shown_name(a@)),
                        None => JsonView::Null,
                    },
                ),
                (
                    "set_at"@,
                    JsonView::Text(
                        clock::rfc3339_text(d.set_at.unix_secs(), d.set_at.subsec()),
                    ),
                ),
                ("sink_installed"@, JsonView::Bool(snap.sink_installed)),
                (
                    "source"@,
                    JsonView::Text(
                        "last requested presence (replayed on reconnect), not a Discord read-back; sink_installed is not a live connection probe"@,
                    ),
                ),
            ],
        },
    )
}

/// What is known of the presence, as JSON. It says what was asked for, not what
/// Discord shows.
pub fn presence_snapshot_json(snap: &PresenceSnapshot) -> (r: Json)
    ensures
        r@ == snapshot_view(*snap),
{
    broadcast use json::lemma_json_view;

    let mut out: Object = Object::new();
    match &snap.desired {
        None => {
            out.put("set_this_process", Json::Bool(false));
            out.put("sink_installed", Json::Bool(snap.sink_installed));
            out.put(
                "note",
                Json::string(
                    "no presence has been requested since this process started; Discord is showing the gateway default. sink_installed reports whether a shard messenger has been installed since the last gateway ready — disconnects are not tracked",
                ),
            );
        },
        Some(d) => {
            out.put("set_this_process", Json::Bool(true));
            out.put("online_status", Json::string(shown_status_str(d.status)));
            match &d.activity {
                Some(a) => {
                    out.put("activity_type", Json::string(shown_kind_str(a.kind)));
                    let custom: bool = a.kind == ActivityKind::Custom;
                    let name: &str = match &a.state {
                        Some(s) if custom => s.as_str(),
                        _ => a.name.as_str(),
                    };
                    out.put("activity_name", Json::string(name));
                },
                None => {
                    out.put("activity_type", Json::Null);
                    out.put("activity_name", Json::Null);
                },
            }
            out.put("set_at", Json::Text(d.set_at.to_rfc3339()));
            out.put("sink_installed", Json::Bool(snap.sink_installed));
            out.put(
                "source",
                Json::string(
                    "last requested presence (replayed on reconnect), not a Discord read-back; sink_installed is not a live connection probe",
                ),
            );
        },
    }
    assert(out.fields() =~= snapshot_view(*snap)->Object_0);
    out.done()
}

/// A presence that was asked for reads back: the status and the activity that are
/// shown are the words and the text that were given.
pub proof fn law_presence_reads_back(
    status: OnlineStatus,
    activity: ActivityType,
    name: Seq<char>,
)
    ensures
        shown_status(discord_status(status)) == status_text(status),
        shown_kind(kind_of(activity)) == activity_text(activity),
        shown_name(activity_of(activity, name)) == name,
{
}

/// What a presence that was taken note of is answered with.
fn presence_json(status: &str) -> (r: Json)
    ensures
        r@ == JsonView::Object(
            seq![("ok"@, JsonView::Bool(true)), ("status"@, JsonView::Text(status@))],
        ),
{
    broadcast use json::lemma_json_view;

    let mut out: Object = Object::new();
    out.put("ok", Json::Bool(true));
    out.put("status", Json::string(status));
    assert(out.fields() =~= seq![
        ("ok"@, JsonView::Bool(true)),
        ("status"@, JsonView::Text(status@)),
    ]);
    out.done()
}

/// What becomes of a presence that is asked for.
pub enum PresenceStep {
    /// This is answered.
    Answer(Json),
    /// The command is handed to the gateway's task, which takes note of it later.
    Queue(DiscordCommand),
}

/// Asks for a presence. With a store it is taken note of at once: what is read back
/// afterwards is what was asked for. Without one it is handed to the gateway's
/// task, where there is one.
pub fn set_presence(
    store: &mut Option<PresenceSnapshot>,
    has_command_channel: bool,
    online_status: &str,
    activity_type: Option<&str>,
    activity_name: Option<&str>,
    at: Timestamp,
) -> (r: PresenceStep)
    ensures
        ({
            let problem = presence_problem(
                online_status@,
                text::str_opt(activity_type),
                activity_name is Some,
            );
            if problem is Some {
                &&& *final(store) == *old(store)
                &&& r matches PresenceStep::Answer(a)
                &&& a@ == json::error_view(problem->0)
            } else if *old(store) is Some {
                &&& r matches PresenceStep::Answer(a)
                &&& a@ == JsonView::Object(
                    seq![("ok"@, JsonView::Bool(true)), ("status"@, JsonView::Text("applied"@))],
                )
                &&& *final(store) matches Some(s)
                &&& s.sink_installed == old(store)->0.sink_installed
                &&& s.desired matches Some(d)
                &&& shown_status(d.status) == online_status@
                &&& status_named(online_status@) matches Some(x)
                &&& d.status == discord_status(x)
                &&& d.set_at == at
                &&& match activity_type {
                    Some(word) => {
                        &&& d.activity matches Some(a)
                        &&& shown_kind(a.kind) == word@
                        &&& shown_name(a@) == activity_name->0@
                        &&& activity_named(word@) matches Some(k)
                        &&& a@ == activity_of(k, activity_name->0@)
                    },
                    None => d.activity is None,
                }
            } else if !has_command_channel {
                &&& *final(store) is None
                &&& r matches PresenceStep::Answer(a)
                &&& a@ == json::error_view(
                    "presence updates require the discord gateway command channel"@,
                )
            } else {
                &&& *final(store) is None
                &&& r matches PresenceStep::Queue(
                    DiscordCommand::SetPresence { online_status: s, activity_type: k, activity_name: n },
                )
                &&& status_named(online_status@) == Some(s)
                &&& match activity_type {
                    Some(word) => k is Some && k == activity_named(word@),
                    None => k is None,
                }
                &&& match activity_name {
                    Some(name) => n matches Some(x) && x@ == name@,
                    None => n is None,
                }
            }
        }),
{
    let request: PresenceRequest = match read_presence(
        online_status,
        activity_type,
        activity_name,
    ) {
        Ok(p) => p,
        Err(e) => {
            return PresenceStep::Answer(e);
        },
    };
    match store.take() {
        Some(s) => {
            let mut snap: PresenceSnapshot = s;
            snap.set_presence(&request, at);
            *store = Some(snap);
            PresenceStep::Answer(presence_json("applied"))
        },
        None => {
            if !has_command_channel {
                return PresenceStep::Answer(
                    Json::error(
                        "presence updates require the discord gateway command channel".to_owned(),
                    ),
                );
            }
            PresenceStep::Queue(request.command())
        },
    }
}

/// What a presence is answered with that was handed to the gateway's task: that it was
/// accepted, which is less than that it is in force, or why it could not be handed on.
pub fn queued_answer(sent: &Result<(), String>) -> (r: Json)
    ensures
        match *sent {
            Ok(_) => r@ == JsonView::Object(
                seq![("ok"@, JsonView::Bool(true)), ("status"@, JsonView::Text("accepted"@))],
            ),
            Err(e) => r@ == json::error_view("failed to send presence command: "@ + e@),
        },
{
    match sent {
        Ok(_) => presence_json("accepted"),
        Err(e) => {
            let mut message: String = "failed to send presence command: ".to_owned();
            message.append(e.as_str());
            Json::error(message)
        },
    }
}

/// What is known of the presence, where it is kept.
pub fn get_presence(store: &Option<PresenceSnapshot>) -> (r: Json)
    ensures
        match *store {
            None => r@ == json::error_view("presence state is not wired on this transport"@),
            Some(snap) => r@ == snapshot_view(snap),
        },
{
    match store {
        Some(snap) => presence_snapshot_json(snap),
        None => Json::error("presence state is not wired on this transport".to_owned()),
    }
}

/// Whether the bot may be shown as typing in a channel, or what is answered.
pub fn check_typing(gate: &OutboundGate, channel_id: u64) -> (r: Result<(), Json>)
    ensures
        match r {
            Ok(_) => gate.allowed(channel_id),
            Err(e) => !gate.allowed(channel_id) && e@ == json::error_view(
                "channel not in allowlist"@,
            ),
        },
{
    management::check_outbound(gate, channel_id)
}

/// Each word of a status sets that status, and each word of an activity that activity;
/// and Discord is asked for the one that was meant.
pub proof fn law_words_set_what_they_name()
    ensures
        status_named("online"@) == Some(OnlineStatus::Online),
        status_named("idle"@) == Some(OnlineStatus::Idle),
        status_named("dnd"@) == Some(OnlineStatus::Dnd),
        status_named("invisible"@) == Some(OnlineStatus::Invisible),
        discord_status(OnlineStatus::Online) == PresenceStatus::Online,
        discord_status(OnlineStatus::Idle) == PresenceStatus::Idle,
        discord_status(OnlineStatus::Dnd) == PresenceStatus::DoNotDisturb,
        discord_status(OnlineStatus::Invisible) == PresenceStatus::Invisible,
        activity_named("playing"@) == Some(ActivityType::Playing),
        activity_named("watching"@) == Some(ActivityType::Watching),
        activity_named("listening"@) == Some(ActivityType::Listening),
        activity_named("competing"@) == Some(ActivityType::Competing),
        activity_named("custom"@) == Some(ActivityType::Custom),
        kind_of(ActivityType::Playing) == ActivityKind::Playing,
        kind_of(ActivityType::Watching) == ActivityKind::Watching,
        kind_of(ActivityType::Listening) == ActivityKind::Listening,
        kind_of(ActivityType::Competing) == ActivityKind::Competing,
        kind_of(ActivityType::Custom) == ActivityKind::Custom,
{
    reveal_strlit("online");
    reveal_strlit("idle");
    reveal_strlit("dnd");
    reveal_strlit("invisible");
    assert("online"@.len() == 6);
    assert("idle"@.len() == 4);
    assert("dnd"@.len() == 3);
    assert("invisible"@.len() == 9);
    reveal_strlit("playing");
    reveal_strlit("watching");
    reveal_strlit("listening");
    reveal_strlit("competing");
    reveal_strlit("custom");
    assert("playing"@.len() == 7);
    assert("watching"@.len() == 8);
    assert("listening"@.len() == 9 && "listening"@[0] == 'l');
    assert("competing"@.len() == 9 && "competing"@[0] == 'c');
    assert("custom"@.len() == 6);
}

/// A status is shown by the word that sets it, and one that cannot be set by a word of its
/// own.
pub proof fn law_statuses_are_shown_by_their_words(status: PresenceStatus, kind: ActivityKind)
    ensures
        shown_status(PresenceStatus::Online) == "online"@,
        shown_status(PresenceStatus::Idle) == "idle"@,
        shown_status(PresenceStatus::DoNotDisturb) == "dnd"@,
        shown_status(PresenceStatus::Invisible) == "invisible"@,
        shown_status(PresenceStatus::Offline) == "offline"@,
        shown_status(PresenceStatus::Unknown) == "unknown"@,
        shown_kind(ActivityKind::Playing) == "playing"@,
        shown_kind(ActivityKind::Watching) == "watching"@,
        shown_kind(ActivityKind::Listening) == "listening"@,
        shown_kind(ActivityKind::Competing) == "competing"@,
        shown_kind(ActivityKind::Custom) == "custom"@,
        shown_kind(ActivityKind::Unknown) == "unknown"@,
{
}

/// The words of an activity are its name; of a custom one they are what is shown.
pub proof fn law_activities_say_their_name(activity: ActivityType, name: Seq<char>)
    ensures
        activity != ActivityType::Custom ==> activity_of(activity, name).name == name
            && activity_of(activity, name).state is None,
        activity == ActivityType::Custom ==> activity_of(activity, name).state == Some(name)
            && activity_of(activity, name).name == "~"@,
        activity_of(activity, name).kind == kind_of(activity),
{
}

/// A presence can be asked for by one of four words for the status and, where there is to
/// be an activity, by one of five words for its kind together with a name.
pub proof fn law_presences_are_asked_for_in_words(
    online_status: Seq<char>,
    activity_type: Option<Seq<char>>,
    named: bool,
)
    ensures
        presence_problem(online_status, activity_type, named) is None <==> {
            &&& online_status == "online"@ || online_status == "idle"@ || online_status == "dnd"@
                || online_status == "invisible"@
            &&& activity_type matches Some(word) ==> named && (word == "playing"@ || word
                == "watching"@ || word == "listening"@ || word == "competing"@ || word == "custom"@)
        },
{
    assert(status_text(OnlineStatus::Online) == "online"@);
    assert(status_text(OnlineStatus::Idle) == "idle"@);
    assert(status_text(OnlineStatus::Dnd) == "dnd"@);
    assert(status_text(OnlineStatus::Invisible) == "invisible"@);
    assert(activity_text(ActivityType::Playing) == "playing"@);
    assert(activity_text(ActivityType::Watching) == "watching"@);
    assert(activity_text(ActivityType::Listening) == "listening"@);
    assert(activity_text(ActivityType::Competing) == "competing"@);
    assert(activity_text(ActivityType::Custom) == "custom"@);
}

/// What is told of the presence is what was last asked for, and that nothing was where
/// nothing was.
pub proof fn law_presence_is_told_as_asked_for(snap: PresenceSnapshot)
    ensures
        snapshot_view(snap) matches JsonView::Object(fields) && {
            &&& fields[0] == ("set_this_process"@, JsonView::Bool(snap.desired is Some))
            &&& snap.desired is None ==> fields[1] == (
                "sink_installed"@,
                JsonView::Bool(snap.sink_installed),
            )
            &&& snap.desired matches Some(d) ==> {
                &&& fields[1] == ("online_status"@, JsonView::Text(shown_status(d.status)))
                &&& fields[2].0 == "activity_type"@
                &&& fields[3].0 == "activity_name"@
                &&& d.activity is None ==> fields[2].1 == JsonView::Null && fields[3].1
                    == JsonView::Null
                &&& d.activity matches Some(a) ==> fields[2].1 == JsonView::Text(
                    shown_kind(a.kind),
                ) && fields[3].1 == JsonView::Text(shown_name(a@))
                &&& fields[5] == ("sink_installed"@, JsonView::Bool(snap.sink_installed))
            }
        },
{
}

/// An activity is shown where both its kind and its name are given, and only there.
pub proof fn law_activities_need_a_kind_and_a_name(request: PresenceRequest)
    ensures
        request.activity_view() is Some <==> request.activity_type is Some
            && request.activity_name is Some,
{
}

/// The bot is seen to type only where it may write.
pub proof fn law_typing_needs_a_permitted_channel(
    gate: &OutboundGate,
    channel_id: u64,
    r: Result<(), Json>,
)
    requires
        call_ensures(check_typing, (gate, channel_id), r),
    ensures
        r is Ok <==> gate.allowed(channel_id),
{
}

/// A presence is what was asked for: its status by its word, its activity by its word and
/// its name, and no activity without a name.
pub proof fn law_presence_is_what_was_asked_for(
    online_status: &str,
    activity_type: Option<&str>,
    activity_name: Option<&str>,
    r: Result<PresenceRequest, Json>,
)
    requires
        call_ensures(read_presence, (online_status, activity_type, activity_name), r),
    ensures
        r matches Ok(p) ==> {
            &&& status_text(p.online_status) == online_status@
            &&& p.activity_type is Some <==> activity_type is Some
            &&& activity_type is Some ==> activity_text(p.activity_type->0) == activity_type->0@
            &&& p.activity_name is Some <==> activity_name is Some
            &&& activity_name is Some ==> p.activity_name->0@ == activity_name->0@
            &&& activity_type is Some ==> activity_name is Some
        },
{
}

} // verus!
