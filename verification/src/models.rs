//! Contacts, candidates for contacts, and the context that is shown with them.

use crate::json::{copy_json, Json, JsonView};
use crate::names::{is_telegram_contact_id, telegram_id};
use crate::order::views;
use crate::score::ScoreStep;
use crate::text::{opt_text, texts};
use vstd::prelude::*;

verus! {

/// How many contacts are listed where no limit is asked for.
pub const DEFAULT_LIMIT: usize = 30;

/// How many contacts are listed at most.
pub const MAX_LIMIT: usize = 120;

/// How many context items a Telegram contact has at most.
pub const TELEGRAM_CONTEXT_LIMIT: usize = 100;

/// How many recent messages the context of a candidate holds, where there are that many.
pub const MIN_CONTEXT_MESSAGES_PER_CANDIDATE: usize = 20;

pub const TELEGRAM_RECENT_CONTEXT_LIMIT: usize = MIN_CONTEXT_MESSAGES_PER_CANDIDATE;

/// How many pairs of a message and its reply the context of a Telegram contact holds at most.
pub const TELEGRAM_INTERACTION_CONTEXT_LIMIT: usize = 10;

/// How many context items a contact of another connector has at most.
pub const GOOGLE_CONTEXT_LIMIT: usize = 10;

/// How many context items of a candidate are used to infer contacts.
pub const INFERENCE_CONTEXT_LIMIT: usize = TELEGRAM_RECENT_CONTEXT_LIMIT
    + TELEGRAM_INTERACTION_CONTEXT_LIMIT * 2;

/// How many runs of the history are looked at.
pub const HISTORY_CANDIDATE_LIMIT: usize = 1000;

/// One message or event that is shown with a contact.
#[derive(Debug)]
pub struct ContactContext {
    pub kind: String,
    pub text: String,
    pub timestamp_ms: Option<i128>,
    pub payload: Json,
    /// The bit pattern of the entropy score of `text`.
    pub entropy: u64,
}

pub ghost struct ContextView {
    pub kind: Seq<char>,
    pub text: Seq<char>,
    pub timestamp_ms: Option<i128>,
    pub payload: JsonView,
    pub entropy: u64,
}

impl View for ContactContext {
    type V = ContextView;

    open spec fn view(&self) -> ContextView {
        ContextView {
            kind: self.kind@,
            text: self.text@,
            timestamp_ms: self.timestamp_ms,
            payload: self.payload@,
            entropy: self.entropy,
        }
    }
}

impl ContactContext {
    /// Copies the item.
    pub fn copy(&self) -> (r: ContactContext)
        ensures
            r@ == self@,
    {
        ContactContext {
            kind: self.kind.clone(),
            text: self.text.clone(),
            timestamp_ms: self.timestamp_ms,
            payload: copy_json(&self.payload),
            entropy: self.entropy,
        }
    }
}

/// A person who may become a contact.
#[derive(Debug)]
pub struct Candidate {
    pub id: String,
    pub name: Option<String>,
    pub public_username: Option<String>,
    pub avatar: Option<String>,
    /// The bit pattern of the score.
    pub score: u64,
    pub last_message_at_ms: Option<i128>,
    pub context: Vec<ContactContext>,
}

pub ghost struct CandidateView {
    pub id: Seq<char>,
    pub name: Option<Seq<char>>,
    pub public_username: Option<Seq<char>>,
    pub avatar: Option<Seq<char>>,
    pub score: u64,
    pub last_message_at_ms: Option<i128>,
    pub context: Seq<ContextView>,
}

impl View for Candidate {
    type V = CandidateView;

    open spec fn view(&self) -> CandidateView {
        CandidateView {
            id: self.id@,
            name: opt_text(self.name),
            public_username: opt_text(self.public_username),
            avatar: opt_text(self.avatar),
            score: self.score,
            last_message_at_ms: self.last_message_at_ms,
            context: views(self.context@),
        }
    }
}

impl Candidate {
    /// Copies the candidate.
    pub fn copy(&self) -> (r: Candidate)
        ensures
            r@ == self@,
    {
        let mut context: Vec<ContactContext> = Vec::new();
        for i in 0..self.context.len()
            invariant
                context@.len() == i,
                forall|j: int| 0 <= j < i ==> (#[trigger] context@[j])@ == self.context@[j]@,
        {
            context.push(self.context[i].copy());
        }
        let r = Candidate {
            id: self.id.clone(),
            name: self.name.clone(),
            public_username: self.public_username.clone(),
            avatar: self.avatar.clone(),
            score: self.score,
            last_message_at_ms: self.last_message_at_ms,
            context,
        };
        assert(r@.context =~= self@.context);
        r
    }
}

/// A candidate whose score is still being added up: its score is where the sum starts from.
#[derive(Debug)]
pub struct CandidateDraft {
    pub candidate: Candidate,
    pub steps: Vec<ScoreStep>,
}

pub ghost struct DraftView {
    pub candidate: CandidateView,
    pub steps: Seq<ScoreStep>,
}

impl View for CandidateDraft {
    type V = DraftView;

    open spec fn view(&self) -> DraftView {
        DraftView { candidate: self.candidate@, steps: self.steps@ }
    }
}

/// How a contact is shown.
#[derive(Debug)]
pub struct ContactDisplay {
    pub label: String,
    pub name: Option<String>,
    pub public_username: Option<String>,
    pub username_label: Option<String>,
    pub unavailable_reason: Option<String>,
}

pub ghost struct DisplayView {
    pub label: Seq<char>,
    pub name: Option<Seq<char>>,
    pub public_username: Option<Seq<char>>,
    pub username_label: Option<Seq<char>>,
    pub unavailable_reason: Option<Seq<char>>,
}

impl View for ContactDisplay {
    type V = DisplayView;

    open spec fn view(&self) -> DisplayView {
        DisplayView {
            label: self.label@,
            name: opt_text(self.name),
            public_username: opt_text(self.public_username),
            username_label: opt_text(self.username_label),
            unavailable_reason: opt_text(self.unavailable_reason),
        }
    }
}

pub open spec fn opt_display(display: Option<ContactDisplay>) -> Option<DisplayView> {
    match display {
        Some(display) => Some(display@),
        None => None,
    }
}

/// A contact as a connector knows it.
#[derive(Debug)]
pub struct ConnectorContact {
    pub id: String,
    pub avatar: Option<String>,
    pub name: Option<String>,
    pub display: Option<ContactDisplay>,
    pub context: Vec<ContactContext>,
    /// The bit pattern of the score.
    pub score: u64,
    pub last_message_at_ms: Option<i128>,
}

pub ghost struct ContactView {
    pub id: Seq<char>,
    pub avatar: Option<Seq<char>>,
    pub name: Option<Seq<char>>,
    pub display: Option<DisplayView>,
    pub context: Seq<ContextView>,
    pub score: u64,
    pub last_message_at_ms: Option<i128>,
}

impl View for ConnectorContact {
    type V = ContactView;

    open spec fn view(&self) -> ContactView {
        ContactView {
            id: self.id@,
            avatar: opt_text(self.avatar),
            name: opt_text(self.name),
            display: opt_display(self.display),
            context: views(self.context@),
            score: self.score,
            last_message_at_ms: self.last_message_at_ms,
        }
    }
}

/// A contact that the user keeps.
#[derive(Debug)]
pub struct SavedContact {
    pub id: String,
    pub name: String,
    pub description: String,
    pub avatar: Option<String>,
    pub contact_ids: Vec<String>,
}

pub ghost struct SavedView {
    pub id: Seq<char>,
    pub name: Seq<char>,
    pub description: Seq<char>,
    pub avatar: Option<Seq<char>>,
    pub contact_ids: Seq<Seq<char>>,
}

impl View for SavedContact {
    type V = SavedView;

    open spec fn view(&self) -> SavedView {
        SavedView {
            id: self.id@,
            name: self.name@,
            description: self.description@,
            avatar: opt_text(self.avatar),
            contact_ids: texts(self.contact_ids@),
        }
    }
}

/// What is collected with the candidates.
#[derive(Debug, Clone, Copy, PartialEq, Eq, Structural)]
pub struct CandidateContextOptions {
    pub telegram_limit: usize,
    pub other_limit: usize,
    pub include_payload: bool,
    pub include_connector_commands: bool,
}

/// How many context items a contact with an id may have.
pub open spec fn context_limit(options: CandidateContextOptions, id: Seq<char>) -> usize {
    if telegram_id(id) {
        options.telegram_limit
    } else {
        options.other_limit
    }
}

/// What is kept of a payload.
pub open spec fn kept_payload(options: CandidateContextOptions, payload: JsonView) -> JsonView {
    if options.include_payload {
        payload
    } else {
        JsonView::Null
    }
}

impl CandidateContextOptions {
    /// No context at all.
    pub fn none() -> (r: CandidateContextOptions)
        ensures
            r == (CandidateContextOptions {
                telegram_limit: 0,
                other_limit: 0,
                include_payload: false,
                include_connector_commands: false,
            }),
    {
        CandidateContextOptions {
            telegram_limit: 0,
            other_limit: 0,
            include_payload: false,
            include_connector_commands: false,
        }
    }

    /// All the context there is, with payloads and what connectors tell when they are asked.
    pub fn full() -> (r: CandidateContextOptions)
        ensures
            r == (CandidateContextOptions {
                telegram_limit: TELEGRAM_CONTEXT_LIMIT,
                other_limit: GOOGLE_CONTEXT_LIMIT,
                include_payload: true,
                include_connector_commands: true,
            }),
    {
        CandidateContextOptions {
            telegram_limit: TELEGRAM_CONTEXT_LIMIT,
            other_limit: GOOGLE_CONTEXT_LIMIT,
            include_payload: true,
            include_connector_commands: true,
        }
    }

    /// The context that contacts are inferred from: no payloads, and no connector is asked.
    pub fn inference() -> (r: CandidateContextOptions)
        ensures
            r == (CandidateContextOptions {
                telegram_limit: INFERENCE_CONTEXT_LIMIT,
                other_limit: INFERENCE_CONTEXT_LIMIT,
                include_payload: false,
                include_connector_commands: false,
            }),
    {
        CandidateContextOptions {
            telegram_limit: INFERENCE_CONTEXT_LIMIT,
            other_limit: INFERENCE_CONTEXT_LIMIT,
            include_payload: false,
            include_connector_commands: false,
        }
    }

    /// How many context items a contact with an id may have.
    pub fn limit_for_id(self, id: &str) -> (r: usize)
        ensures
            r == context_limit(self, id@),
    {
        if is_telegram_contact_id(id) {
            self.telegram_limit
        } else {
            self.other_limit
        }
    }

    /// The payload, or `null` where payloads are left out.
    pub fn payload(self, payload: &Json) -> (r: Json)
        ensures
            r@ == kept_payload(self, payload@),
    {
        if self.include_payload {
            copy_json(payload)
        } else {
            Json::Null
        }
    }

    /// Whether connectors are asked for their contacts.
    pub fn uses_connector_commands(self) -> (r: bool)
        ensures
            r == self.include_connector_commands,
    {
        self.include_connector_commands
    }
}

/// Telegram contacts have a limit of their own, and payloads are kept or left out as a whole.
pub proof fn law_context_options(
    options: CandidateContextOptions,
    rest: Seq<char>,
    id: Seq<char>,
    payload: JsonView,
)
    ensures
        context_limit(options, "telegram@"@ + rest) == options.telegram_limit,
        context_limit(options, "telegram-user-id@"@ + rest) == options.telegram_limit,
        !telegram_id(id) ==> context_limit(options, id) == options.other_limit,
        options.include_payload ==> kept_payload(options, payload) == payload,
        !options.include_payload ==> kept_payload(options, payload) == JsonView::Null,
{
    crate::names::law_telegram_ids(rest, id);
}

/// How much of everything there may be: a list of thirty up to a hundred and twenty contacts, a
/// hundred context items for a Telegram contact and ten for others, and for an inference the twenty
/// last messages and ten pairs.
pub proof fn law_numbers()
    ensures
        DEFAULT_LIMIT == 30,
        MAX_LIMIT == 120,
        TELEGRAM_CONTEXT_LIMIT == 100,
        GOOGLE_CONTEXT_LIMIT == 10,
        TELEGRAM_RECENT_CONTEXT_LIMIT == 20,
        TELEGRAM_INTERACTION_CONTEXT_LIMIT == 10,
        INFERENCE_CONTEXT_LIMIT == TELEGRAM_RECENT_CONTEXT_LIMIT + 2
            * TELEGRAM_INTERACTION_CONTEXT_LIMIT,
        HISTORY_CANDIDATE_LIMIT == 1000,
{
}

} // verus!
