//! The prompt state machine: what the daemon decides on each reply of the
//! prompter, and what it asks its surroundings to do.
//!
//! The machine does no bus traffic and opens no keyring itself. Each
//! transition takes the record and an event and returns the actions that
//! the caller has to perform, in their order.

use vstd::prelude::*;

use crate::dh::{left_padded, public_key_of, shared_aes_key_of, SHARED_SECRET_LEN};
use crate::envelope::{envelope_text, spec_decode, PUBLIC};
use crate::error::Error;
use crate::key::{Key, Secret};
use crate::secret_exchange::{peer_public_key_in, spec_secret_in, SecretExchange};
use crate::text::same_text;

verus! {

/// The reply of the prompter in a `PromptReady` call.
#[derive(Clone, Copy, Debug, PartialEq, Eq, Structural)]
pub enum Reply {
    No,
    Yes,
    Empty,
}

/// The text that a reply is sent as.
pub open spec fn reply_text(reply: Reply) -> Seq<char> {
    match reply {
        Reply::No => "no"@,
        Reply::Yes => "yes"@,
        Reply::Empty => ""@,
    }
}

/// The three reply texts differ from one another.
pub proof fn lemma_reply_texts_differ()
    ensures
        "no"@ != "yes"@,
        "no"@ != ""@,
        "yes"@ != ""@,
{
    reveal_strlit("no");
    reveal_strlit("yes");
    reveal_strlit("");
    assert("no"@.len() == 2);
    assert("yes"@.len() == 3);
    assert(""@.len() == 0);
}

impl Reply {
    /// The text that the reply is sent as: `no`, `yes` or the empty text.
    pub fn as_str(&self) -> (text: &'static str)
        ensures
            text@ == reply_text(*self),
    {
        match self {
            Reply::No => "no",
            Reply::Yes => "yes",
            Reply::Empty => "",
        }
    }

    /// The reply that a text stands for. Any text but `no`, `yes` and the
    /// empty text is a protocol violation.
    pub fn from_wire(text: &str) -> (result: Result<Reply, Error>)
        ensures
            match result {
                Ok(reply) => text@ == reply_text(reply),
                Err(e) => e == Error::ProtocolViolation && text@ != "no"@ && text@ != "yes"@
                    && text@ != ""@,
            },
    {
        if same_text(text, "no") {
            Ok(Reply::No)
        } else if same_text(text, "yes") {
            Ok(Reply::Yes)
        } else if same_text(text, "") {
            Ok(Reply::Empty)
        } else {
            Err(Error::ProtocolViolation)
        }
    }
}

/// The kind of prompt that `PerformPrompt` asks for.
#[derive(Clone, Copy, Debug, PartialEq, Eq, Structural)]
pub enum PromptType {
    Confirm,
    Password,
}

/// The text that a prompt type is sent as.
pub open spec fn prompt_type_text(prompt_type: PromptType) -> Seq<char> {
    match prompt_type {
        PromptType::Confirm => "confirm"@,
        PromptType::Password => "password"@,
    }
}

impl PromptType {
    /// The text that the prompt type is sent as, in lower case.
    pub fn as_str(&self) -> (text: &'static str)
        ensures
            text@ == prompt_type_text(*self),
    {
        match self {
            PromptType::Confirm => "confirm",
            PromptType::Password => "password",
        }
    }

    /// The prompt type that a text stands for, if it stands for one.
    pub fn from_wire(text: &str) -> (result: Option<PromptType>)
        ensures
            match result {
                Some(prompt_type) => text@ == prompt_type_text(prompt_type),
                None => text@ != "confirm"@ && text@ != "password"@,
            },
    {
        if same_text(text, "confirm") {
            Some(PromptType::Confirm)
        } else if same_text(text, "password") {
            Some(PromptType::Password)
        } else {
            None
        }
    }
}

/// The properties of a system prompt. A field that is `None` is not sent.
#[derive(Debug)]
pub struct Properties {
    pub title: Option<String>,
    pub choice_label: Option<String>,
    pub description: Option<String>,
    pub message: Option<String>,
    pub caller_window: Option<String>,
    pub warning: Option<String>,
    pub password_new: Option<bool>,
    pub password_strength: Option<u32>,
    pub choice_chosen: Option<bool>,
    pub continue_label: Option<String>,
    pub cancel_label: Option<String>,
}

/// The properties of a system prompt as plain values.
pub struct PropertiesView {
    pub title: Option<Seq<char>>,
    pub choice_label: Option<Seq<char>>,
    pub description: Option<Seq<char>>,
    pub message: Option<Seq<char>>,
    pub caller_window: Option<Seq<char>>,
    pub warning: Option<Seq<char>>,
    pub password_new: Option<bool>,
    pub password_strength: Option<u32>,
    pub choice_chosen: Option<bool>,
    pub continue_label: Option<Seq<char>>,
    pub cancel_label: Option<Seq<char>>,
}

/// The characters of a text that may be missing.
pub open spec fn text_of(text: Option<String>) -> Option<Seq<char>> {
    match text {
        Some(text) => Some(text@),
        None => None,
    }
}

impl View for Properties {
    type V = PropertiesView;

    open spec fn view(&self) -> PropertiesView {
        PropertiesView {
            title: text_of(self.title),
            choice_label: text_of(self.choice_label),
            description: text_of(self.description),
            message: text_of(self.message),
            caller_window: text_of(self.caller_window),
            warning: text_of(self.warning),
            password_new: self.password_new,
            password_strength: self.password_strength,
            choice_chosen: self.choice_chosen,
            continue_label: text_of(self.continue_label),
            cancel_label: text_of(self.cancel_label),
        }
    }
}

/// The properties of the prompt that confirms locking the keyring.
pub open spec fn lock_properties() -> PropertiesView {
    PropertiesView {
        title: Some("Lock Keyring"@),
        choice_label: None,
        description: Some("Confirm locking 'login' Keyring"@),
        message: Some("Lock Keyring"@),
        caller_window: None,
        warning: None,
        password_new: Some(false),
        password_strength: Some(0u32),
        choice_chosen: Some(false),
        continue_label: Some("Lock"@),
        cancel_label: Some("Cancel"@),
    }
}

/// The properties of the prompt that asks for the password of the keyring.
pub open spec fn unlock_properties() -> PropertiesView {
    PropertiesView {
        title: Some("Unlock Keyring"@),
        choice_label: None,
        description: Some(
            "An application wants access to the keyring 'login', but it is locked"@,
        ),
        message: Some("Authentication required"@),
        caller_window: None,
        warning: None,
        password_new: Some(false),
        password_strength: Some(0u32),
        choice_chosen: Some(false),
        continue_label: Some("Unlock"@),
        cancel_label: Some("Cancel"@),
    }
}

impl Properties {
    /// The properties of the prompt that confirms locking the keyring.
    pub fn for_lock() -> (properties: Properties)
        ensures
            properties@ == lock_properties(),
    {
        Properties {
            title: Some(String::from_str("Lock Keyring")),
            choice_label: None,
            description: Some(String::from_str("Confirm locking 'login' Keyring")),
            message: Some(String::from_str("Lock Keyring")),
            caller_window: None,
            warning: None,
            password_new: Some(false),
            password_strength: Some(0),
            choice_chosen: Some(false),
            continue_label: Some(String::from_str("Lock")),
            cancel_label: Some(String::from_str("Cancel")),
        }
    }

    /// The properties of the prompt that asks for the password of the
    /// keyring.
    pub fn for_unlock() -> (properties: Properties)
        ensures
            properties@ == unlock_properties(),
    {
        Properties {
            title: Some(String::from_str("Unlock Keyring")),
            choice_label: None,
            description: Some(
                String::from_str(
                    "An application wants access to the keyring 'login', but it is locked",
                ),
            ),
            message: Some(String::from_str("Authentication required")),
            caller_window: None,
            warning: None,
            password_new: Some(false),
            password_strength: Some(0),
            choice_chosen: Some(false),
            continue_label: Some(String::from_str("Unlock")),
            cancel_label: Some(String::from_str("Cancel")),
        }
    }
}

/// What a prompt is for.
#[derive(Clone, Copy, Debug, PartialEq, Eq, Structural)]
pub enum PromptRole {
    Lock,
    Unlock,
    CreateCollection,
}

/// How an attempt to open the keyring with a secret ended.
#[derive(Clone, Copy, Debug, PartialEq, Eq, Structural)]
pub enum KeyringOutcome {
    /// The secret opens the keyring.
    Opened,
    /// The secret is not the one of the keyring.
    IncorrectSecret,
    /// The keyring could not be read for another reason.
    Unavailable,
}

/// How many secrets an unlock prompt may offer before it is dismissed.
pub const MAX_UNLOCK_ATTEMPTS: u8 = 3;

/// The name of the keyring that an unlock prompt opens.
pub const LOGIN_KEYRING: &'static str = "login";

/// The state of a prompt.
pub enum PromptState {
    New,
    AwaitingFirstReady,
    AwaitingSecondReady,
    Completed { dismissed: bool, result: Vec<String> },
    Failed(Error),
}

/// The state of a prompt as plain values.
pub enum StateView {
    New,
    AwaitingFirstReady,
    AwaitingSecondReady,
    Completed { dismissed: bool, result: Seq<Seq<char>> },
    Failed(Error),
}

/// The characters of each string of a list.
pub open spec fn texts_of(strings: Seq<String>) -> Seq<Seq<char>> {
    Seq::new(strings.len(), |i: int| strings[i]@)
}

impl View for PromptState {
    type V = StateView;

    open spec fn view(&self) -> StateView {
        match *self {
            PromptState::New => StateView::New,
            PromptState::AwaitingFirstReady => StateView::AwaitingFirstReady,
            PromptState::AwaitingSecondReady => StateView::AwaitingSecondReady,
            PromptState::Completed { dismissed, result } => StateView::Completed {
                dismissed,
                result: texts_of(result@),
            },
            PromptState::Failed(kind) => StateView::Failed(kind),
        }
    }
}

/// What the caller of the machine has to do.
pub enum PromptAction {
    /// Ask the prompter to begin prompting for this prompt.
    BeginPrompting,
    /// Ask the prompter to show a prompt, and hand it `exchange`.
    PerformPrompt { prompt_type: PromptType, properties: Properties, exchange: String },
    /// Tell the prompter to stop prompting.
    StopPrompting,
    /// Set the lock state of the objects.
    SetLocked { locked: bool, objects: Vec<String> },
    /// Try to open the named keyring with the secret, and report how that
    /// ended.
    OpenKeyring { name: String, secret: Secret },
    /// Emit the signal that the prompt is completed.
    Completed { dismissed: bool, result: Vec<String> },
}

/// An action as plain values.
pub enum ActionView {
    BeginPrompting,
    PerformPrompt { prompt_type: PromptType, properties: PropertiesView, exchange: Seq<char> },
    StopPrompting,
    SetLocked { locked: bool, objects: Seq<Seq<char>> },
    OpenKeyring { name: Seq<char>, secret: Seq<u8> },
    Completed { dismissed: bool, result: Seq<Seq<char>> },
}

impl View for PromptAction {
    type V = ActionView;

    open spec fn view(&self) -> ActionView {
        match *self {
            PromptAction::BeginPrompting => ActionView::BeginPrompting,
            PromptAction::PerformPrompt { prompt_type, properties, exchange } => {
                ActionView::PerformPrompt {
                    prompt_type,
                    properties: properties@,
                    exchange: exchange@,
                }
            },
            PromptAction::StopPrompting => ActionView::StopPrompting,
            PromptAction::SetLocked { locked, objects } => ActionView::SetLocked {
                locked,
                objects: texts_of(objects@),
            },
            PromptAction::OpenKeyring { name, secret } => ActionView::OpenKeyring {
                name: name@,
                secret: secret@,
            },
            PromptAction::Completed { dismissed, result } => ActionView::Completed {
                dismissed,
                result: texts_of(result@),
            },
        }
    }
}

/// A list of actions as plain values.
pub open spec fn actions_of(actions: Seq<PromptAction>) -> Seq<ActionView> {
    Seq::new(actions.len(), |i: int| actions[i]@)
}

/// What a transition returns, as plain values.
pub open spec fn outcome_of(result: Result<Vec<PromptAction>, Error>) -> Result<
    Seq<ActionView>,
    Error,
> {
    match result {
        Ok(actions) => Ok(actions_of(actions@)),
        Err(kind) => Err(kind),
    }
}

/// A prompt record as plain values.
pub struct RecordView {
    /// What the prompt is for.
    pub role: PromptRole,
    /// The paths of the objects that the prompt is about.
    pub objects: Seq<Seq<char>>,
    pub state: StateView,
    /// The AES key shared with the prompter, while an unlock prompt waits
    /// for its secret.
    pub aes_key: Option<Seq<u8>>,
    /// The opening envelope of this side, which a repeated prompt sends
    /// again.
    pub offer: Option<Seq<char>>,
    /// How many secrets turned out incorrect so far.
    pub attempts: nat,
    /// Whether the keyring is being opened with a secret.
    pub awaiting_keyring: bool,
}

/// The record after the prompt was dismissed, and what to do then: stop
/// prompting and signal completion without a result. No key is kept.
pub open spec fn dismissed(r: RecordView) -> (RecordView, Result<Seq<ActionView>, Error>) {
    (
        RecordView {
            state: StateView::Completed { dismissed: true, result: Seq::empty() },
            aes_key: None,
            offer: None,
            awaiting_keyring: false,
            ..r
        },
        Ok(
            seq![
                ActionView::StopPrompting,
                ActionView::Completed { dismissed: true, result: Seq::empty() },
            ],
        ),
    )
}

/// The record after a failure of the given kind. No key is kept and
/// nothing is to be done but to report the failure.
pub open spec fn failed(r: RecordView, kind: Error) -> (
    RecordView,
    Result<Seq<ActionView>, Error>,
) {
    (
        RecordView {
            state: StateView::Failed(kind),
            aes_key: None,
            offer: None,
            awaiting_keyring: false,
            ..r
        },
        Err(kind),
    )
}

/// The record after the user agreed, and what to do then: set the lock
/// state of the objects, stop prompting and signal completion with the
/// objects as the result. No key is kept.
pub open spec fn completed(r: RecordView, locked: bool) -> (
    RecordView,
    Result<Seq<ActionView>, Error>,
) {
    (
        RecordView {
            state: StateView::Completed { dismissed: false, result: r.objects },
            aes_key: None,
            offer: None,
            awaiting_keyring: false,
            ..r
        },
        Ok(
            seq![
                ActionView::SetLocked { locked, objects: r.objects },
                ActionView::StopPrompting,
                ActionView::Completed { dismissed: false, result: r.objects },
            ],
        ),
    )
}

/// The opening envelope of the session with the given private scalar.
pub open spec fn offer_of(private_key: Seq<u8>) -> Seq<char> {
    envelope_text(
        seq![(PUBLIC@, left_padded(public_key_of(private_key), SHARED_SECRET_LEN as nat))],
    )
}

/// The first reply of the prompter, which is empty. `session` is the
/// private scalar of a fresh session, or `None` where none could be made.
///
/// A lock prompt asks for confirmation. An unlock prompt derives the AES
/// key from the envelope of the prompter, keeps it, and asks for the
/// password; an envelope without a public value is a bad exchange. A prompt
/// that creates a collection is dismissed: this machine does not drive it.
pub open spec fn first_ready(r: RecordView, exchange: Seq<char>, session: Option<Seq<u8>>) -> (
    RecordView,
    Result<Seq<ActionView>, Error>,
) {
    match r.role {
        PromptRole::CreateCollection => dismissed(r),
        PromptRole::Lock => match session {
            Some(private_key) => (
                RecordView { state: StateView::AwaitingSecondReady, ..r },
                Ok(
                    seq![
                        ActionView::PerformPrompt {
                            prompt_type: PromptType::Confirm,
                            properties: lock_properties(),
                            exchange: offer_of(private_key),
                        },
                    ],
                ),
            ),
            None => failed(r, Error::Crypto),
        },
        PromptRole::Unlock => match session {
            Some(private_key) => match peer_public_key_in(exchange) {
                Some(peer) => (
                    RecordView {
                        state: StateView::AwaitingSecondReady,
                        aes_key: Some(shared_aes_key_of(private_key, peer)),
                        offer: Some(offer_of(private_key)),
                        ..r
                    },
                    Ok(
                        seq![
                            ActionView::PerformPrompt {
                                prompt_type: PromptType::Confirm,
                                properties: unlock_properties(),
                                exchange: offer_of(private_key),
                            },
                        ],
                    ),
                ),
                None => failed(r, Error::BadExchange),
            },
            None => failed(r, Error::Crypto),
        },
    }
}

/// The second reply of the prompter, where it is `yes`.
///
/// A lock prompt locks its objects and completes. An unlock prompt takes
/// the secret out of the final exchange with the key it kept and asks for
/// the keyring to be opened with it; where the exchange holds no secret
/// that can be taken out, the prompt is dismissed.
pub open spec fn confirmed(r: RecordView, exchange: Seq<char>) -> (
    RecordView,
    Result<Seq<ActionView>, Error>,
) {
    match r.role {
        PromptRole::Lock => completed(r, true),
        PromptRole::Unlock => match (r.aes_key, spec_decode(exchange)) {
            (Some(key), Some(fields)) => match spec_secret_in(fields, key) {
                Some(secret) => (
                    RecordView { awaiting_keyring: true, ..r },
                    Ok(seq![ActionView::OpenKeyring { name: LOGIN_KEYRING@, secret }]),
                ),
                None => dismissed(r),
            },
            _ => dismissed(r),
        },
        PromptRole::CreateCollection => dismissed(r),
    }
}

/// The transition on a reply of the prompter.
///
/// The empty reply is due first and once; `no` and `yes` are due after it.
/// `no` dismisses the prompt whenever it comes after the first reply. Any
/// other reply in any other state is a protocol violation, which fails the
/// prompt.
pub open spec fn spec_prompt_ready(
    r: RecordView,
    reply: Reply,
    exchange: Seq<char>,
    session: Option<Seq<u8>>,
) -> (RecordView, Result<Seq<ActionView>, Error>) {
    match (r.state, reply) {
        (StateView::AwaitingFirstReady, Reply::Empty) => first_ready(r, exchange, session),
        (StateView::AwaitingSecondReady, Reply::No) => dismissed(r),
        (StateView::AwaitingSecondReady, Reply::Yes) => if r.awaiting_keyring {
            failed(r, Error::ProtocolViolation)
        } else {
            confirmed(r, exchange)
        },
        _ => failed(r, Error::ProtocolViolation),
    }
}

/// Whether the transition on `reply` makes use of a fresh session.
pub open spec fn needs_session(r: RecordView, reply: Reply) -> bool {
    &&& r.state is AwaitingFirstReady
    &&& reply == Reply::Empty
    &&& r.role != PromptRole::CreateCollection
}

/// The transition on the end of an attempt to open the keyring.
///
/// Where the keyring opened, the objects are unlocked and the prompt
/// completes. Where the secret was incorrect, the prompt is shown again
/// with the same opening envelope, until `MAX_UNLOCK_ATTEMPTS` secrets were
/// incorrect; then, and where the keyring could not be read at all, the
/// prompt is dismissed. A report that the record does not wait for changes
/// nothing.
pub open spec fn spec_keyring_opened(r: RecordView, outcome: KeyringOutcome) -> (
    RecordView,
    Result<Seq<ActionView>, Error>,
) {
    if r.state is AwaitingSecondReady && r.awaiting_keyring {
        match outcome {
            KeyringOutcome::Opened => completed(r, false),
            KeyringOutcome::IncorrectSecret => match r.offer {
                Some(offer) => if r.attempts + 1 < MAX_UNLOCK_ATTEMPTS {
                    (
                        RecordView { attempts: r.attempts + 1, awaiting_keyring: false, ..r },
                        Ok(
                            seq![
                                ActionView::PerformPrompt {
                                    prompt_type: PromptType::Confirm,
                                    properties: unlock_properties(),
                                    exchange: offer,
                                },
                            ],
                        ),
                    )
                } else {
                    dismissed(r)
                },
                None => dismissed(r),
            },
            KeyringOutcome::Unavailable => dismissed(r),
        }
    } else {
        (r, Ok(Seq::empty()))
    }
}

/// The transition that starts a prompt: a new prompt asks the prompter to
/// begin; any other prompt fails with a protocol violation.
pub open spec fn spec_begin_prompting(r: RecordView) -> (
    RecordView,
    Result<Seq<ActionView>, Error>,
) {
    if r.state is New {
        (RecordView { state: StateView::AwaitingFirstReady, ..r }, Ok(seq![ActionView::BeginPrompting]))
    } else {
        failed(r, Error::ProtocolViolation)
    }
}

/// What holds of every record: a key is kept only while an unlock prompt
/// waits for its second reply, the keyring is opened only then, and fewer
/// than `MAX_UNLOCK_ATTEMPTS` secrets were incorrect.
pub open spec fn record_inv(r: RecordView) -> bool {
    &&& r.attempts < MAX_UNLOCK_ATTEMPTS
    &&& r.aes_key is Some ==> r.state is AwaitingSecondReady && r.role == PromptRole::Unlock
    &&& r.awaiting_keyring ==> r.state is AwaitingSecondReady && r.role == PromptRole::Unlock
        && r.aes_key is Some
}

/// Every transition keeps what holds of every record.
pub proof fn lemma_transitions_keep_invariant(
    r: RecordView,
    reply: Reply,
    exchange: Seq<char>,
    session: Option<Seq<u8>>,
    outcome: KeyringOutcome,
)
    requires
        record_inv(r),
    ensures
        record_inv(spec_begin_prompting(r).0),
        record_inv(spec_prompt_ready(r, reply, exchange, session).0),
        record_inv(spec_keyring_opened(r, outcome).0),
{
}

/// Whether a list of actions unlocks anything.
pub open spec fn unlocks(actions: Seq<ActionView>) -> bool {
    exists|i: int|
        0 <= i < actions.len() && (#[trigger] actions[i] matches ActionView::SetLocked {
            locked,
            ..
        } && !locked)
}

/// Objects are unlocked only once the keyring opened: no reply of the
/// prompter and no other end of an attempt unlocks anything.
pub proof fn lemma_unlock_needs_the_keyring(
    r: RecordView,
    reply: Reply,
    exchange: Seq<char>,
    session: Option<Seq<u8>>,
    outcome: KeyringOutcome,
)
    ensures
        spec_begin_prompting(r).1 matches Ok(actions) ==> !unlocks(actions),
        spec_prompt_ready(r, reply, exchange, session).1 matches Ok(actions) ==> !unlocks(actions),
        outcome != KeyringOutcome::Opened ==> (spec_keyring_opened(r, outcome).1 matches Ok(
            actions,
        ) ==> !unlocks(actions)),
{
}

/// A prompt that is completed or failed keeps no key.
pub proof fn lemma_no_key_at_rest(r: RecordView)
    requires
        record_inv(r),
        r.state is Completed || r.state is Failed,
    ensures
        r.aes_key is None,
        !r.awaiting_keyring,
{
}

/// The private scalar of a session that may be missing.
pub open spec fn session_scalar(session: Option<SecretExchange>) -> Option<Seq<u8>> {
    match session {
        Some(session) => Some(session.private_bytes()),
        None => None,
    }
}

/// A copy of a list of strings.
fn clone_texts(strings: &Vec<String>) -> (copy: Vec<String>)
    ensures
        texts_of(copy@) == texts_of(strings@),
{
    let mut copy: Vec<String> = Vec::new();
    let mut i: usize = 0;
    while i < strings.len()
        invariant
            i <= strings@.len(),
            copy@.len() == i,
            forall|j: int| 0 <= j < i ==> copy@[j]@ == strings@[j]@,
        decreases strings@.len() - i,
    {
        copy.push(strings[i].clone());
        i = i + 1;
    }
    assert(texts_of(copy@) =~= texts_of(strings@));
    copy
}

/// The record of one prompt: its role, the objects it is about, and how far
/// the conversation with the prompter has come.
pub struct PromptRecord {
    role: PromptRole,
    objects: Vec<String>,
    state: PromptState,
    aes_key: Option<Key>,
    offer: Option<String>,
    attempts: u8,
    awaiting_keyring: bool,
}

impl View for PromptRecord {
    type V = RecordView;

    closed spec fn view(&self) -> RecordView {
        RecordView {
            role: self.role,
            objects: texts_of(self.objects@),
            state: self.state@,
            aes_key: match self.aes_key {
                Some(key) => Some(key@),
                None => None,
            },
            offer: text_of(self.offer),
            attempts: self.attempts as nat,
            awaiting_keyring: self.awaiting_keyring,
        }
    }
}

impl PromptRecord {
    /// What holds of every record that `new` makes and the transitions
    /// keep.
    pub open spec fn wf(&self) -> bool {
        record_inv(self@)
    }

    /// A new prompt with the given role, about the given objects.
    pub fn new(role: PromptRole, objects: Vec<String>) -> (record: PromptRecord)
        ensures
            record.wf(),
            record@ == (RecordView {
                role,
                objects: texts_of(objects@),
                state: StateView::New,
                aes_key: None,
                offer: None,
                attempts: 0,
                awaiting_keyring: false,
            }),
    {
        PromptRecord {
            role,
            objects,
            state: PromptState::New,
            aes_key: None,
            offer: None,
            attempts: 0,
            awaiting_keyring: false,
        }
    }

    /// What the prompt is for.
    pub fn role(&self) -> (role: PromptRole)
        ensures
            role == self@.role,
    {
        self.role
    }

    /// The paths of the objects that the prompt is about.
    pub fn objects(&self) -> (objects: &Vec<String>)
        ensures
            texts_of(objects@) == self@.objects,
    {
        &self.objects
    }

    /// How far the prompt has come.
    pub fn state(&self) -> (state: &PromptState)
        ensures
            state@ == self@.state,
    {
        &self.state
    }

    /// Whether the record keeps an AES key.
    pub fn holds_key(&self) -> (held: bool)
        ensures
            held == self@.aes_key is Some,
    {
        self.aes_key.is_some()
    }

    /// How many secrets turned out incorrect so far.
    pub fn attempts(&self) -> (attempts: u8)
        ensures
            attempts == self@.attempts,
    {
        self.attempts
    }

    /// Forgets the key and the opening envelope and takes the given state.
    fn settle(&mut self, state: PromptState)
        ensures
            final(self)@ == (RecordView {
                state: state@,
                aes_key: None,
                offer: None,
                awaiting_keyring: false,
                ..old(self)@
            }),
    {
        self.state = state;
        self.aes_key = None;
        self.offer = None;
        self.awaiting_keyring = false;
    }

    /// Ends the prompt as dismissed.
    fn dismiss(&mut self) -> (result: Result<Vec<PromptAction>, Error>)
        ensures
            (final(self)@, outcome_of(result)) == dismissed(old(self)@),
    {
        self.settle(PromptState::Completed { dismissed: true, result: Vec::new() });
        let mut actions: Vec<PromptAction> = Vec::new();
        actions.push(PromptAction::StopPrompting);
        actions.push(PromptAction::Completed { dismissed: true, result: Vec::new() });
        proof {
            assert(texts_of(Seq::<String>::empty()) =~= Seq::<Seq<char>>::empty());
            assert(actions_of(actions@) =~= dismissed(old(self)@).1->Ok_0);
        }
        Ok(actions)
    }

    /// Ends the prompt with a failure.
    fn fail(&mut self, kind: Error) -> (result: Result<Vec<PromptAction>, Error>)
        ensures
            (final(self)@, outcome_of(result)) == failed(old(self)@, kind),
    {
        self.settle(PromptState::Failed(kind));
        Err(kind)
    }

    /// Ends the prompt with the lock state of its objects set.
    fn complete(&mut self, locked: bool) -> (result: Result<Vec<PromptAction>, Error>)
        ensures
            (final(self)@, outcome_of(result)) == completed(old(self)@, locked),
    {
        let result = clone_texts(&self.objects);
        let objects = clone_texts(&self.objects);
        let signalled = clone_texts(&self.objects);
        self.settle(PromptState::Completed { dismissed: false, result });
        let mut actions: Vec<PromptAction> = Vec::new();
        actions.push(PromptAction::SetLocked { locked, objects });
        actions.push(PromptAction::StopPrompting);
        actions.push(PromptAction::Completed { dismissed: false, result: signalled });
        proof {
            assert(actions_of(actions@) =~= completed(old(self)@, locked).1->Ok_0);
        }
        Ok(actions)
    }

    /// Starts the prompt.
    pub fn begin_prompting(&mut self) -> (result: Result<Vec<PromptAction>, Error>)
        ensures
            old(self).wf() ==> final(self).wf(),
            (final(self)@, outcome_of(result)) == spec_begin_prompting(old(self)@),
    {
        match self.state {
            PromptState::New => {
                self.state = PromptState::AwaitingFirstReady;
                let mut actions: Vec<PromptAction> = Vec::new();
                actions.push(PromptAction::BeginPrompting);
                proof {
                    assert(actions_of(actions@) =~= seq![ActionView::BeginPrompting]);
                }
                Ok(actions)
            },
            _ => self.fail(Error::ProtocolViolation),
        }
    }

    /// The first reply, with the fresh session at hand.
    fn on_first_ready(&mut self, exchange: &str, session: Option<SecretExchange>) -> (result:
        Result<Vec<PromptAction>, Error>)
        ensures
            (final(self)@, outcome_of(result)) == first_ready(
                old(self)@,
                exchange@,
                session_scalar(session),
            ),
    {
        match self.role {
            PromptRole::CreateCollection => self.dismiss(),
            PromptRole::Lock => match session {
                Some(session) => {
                    let offer = session.begin();
                    self.state = PromptState::AwaitingSecondReady;
                    let mut actions: Vec<PromptAction> = Vec::new();
                    actions.push(
                        PromptAction::PerformPrompt {
                            prompt_type: PromptType::Confirm,
                            properties: Properties::for_lock(),
                            exchange: offer,
                        },
                    );
                    proof {
                        assert(actions_of(actions@) =~= first_ready(
                            old(self)@,
                            exchange@,
                            Some(session.private_bytes()),
                        ).1->Ok_0);
                    }
                    Ok(actions)
                },
                None => self.fail(Error::Crypto),
            },
            PromptRole::Unlock => match session {
                Some(session) => match session.shared_key(exchange) {
                    Ok(aes_key) => {
                        let offer = session.begin();
                        let kept = offer.clone();
                        self.state = PromptState::AwaitingSecondReady;
                        self.aes_key = Some(aes_key);
                        self.offer = Some(kept);
                        let mut actions: Vec<PromptAction> = Vec::new();
                        actions.push(
                            PromptAction::PerformPrompt {
                                prompt_type: PromptType::Confirm,
                                properties: Properties::for_unlock(),
                                exchange: offer,
                            },
                        );
                        proof {
                            assert(actions_of(actions@) =~= first_ready(
                                old(self)@,
                                exchange@,
                                Some(session.private_bytes()),
                            ).1->Ok_0);
                        }
                        Ok(actions)
                    },
                    Err(_) => self.fail(Error::BadExchange),
                },
                None => self.fail(Error::Crypto),
            },
        }
    }

    /// The second reply, where it is `yes`.
    fn on_confirmed(&mut self, exchange: &str) -> (result: Result<Vec<PromptAction>, Error>)
        ensures
            (final(self)@, outcome_of(result)) == confirmed(old(self)@, exchange@),
    {
        match self.role {
            PromptRole::Lock => self.complete(true),
            PromptRole::CreateCollection => self.dismiss(),
            PromptRole::Unlock => {
                let secret = match &self.aes_key {
                    Some(aes_key) => SecretExchange::retrieve_secret_with_key(exchange, aes_key),
                    None => None,
                };
                match secret {
                    Some(secret) => {
                        self.awaiting_keyring = true;
                        let mut actions: Vec<PromptAction> = Vec::new();
                        actions.push(
                            PromptAction::OpenKeyring {
                                name: String::from_str(LOGIN_KEYRING),
                                secret,
                            },
                        );
                        proof {
                            assert(actions_of(actions@) =~= confirmed(
                                old(self)@,
                                exchange@,
                            ).1->Ok_0);
                        }
                        Ok(actions)
                    },
                    None => self.dismiss(),
                }
            },
        }
    }

    /// The transition on a reply of the prompter, with the fresh session
    /// that the first reply makes use of at hand; `None` stands for a
    /// session that could not be made.
    pub fn prompt_ready_with(
        &mut self,
        reply: Reply,
        exchange: &str,
        session: Option<SecretExchange>,
    ) -> (result: Result<Vec<PromptAction>, Error>)
        ensures
            old(self).wf() ==> final(self).wf(),
            (final(self)@, outcome_of(result)) == spec_prompt_ready(
                old(self)@,
                reply,
                exchange@,
                session_scalar(session),
            ),
    {
        let ghost private = session_scalar(session);
        proof {
            if self.wf() {
                lemma_transitions_keep_invariant(
                    self@,
                    reply,
                    exchange@,
                    private,
                    KeyringOutcome::Opened,
                );
            }
        }
        match self.state {
            PromptState::AwaitingFirstReady => match reply {
                Reply::Empty => self.on_first_ready(exchange, session),
                _ => self.fail(Error::ProtocolViolation),
            },
            PromptState::AwaitingSecondReady => match reply {
                Reply::No => self.dismiss(),
                Reply::Yes => if self.awaiting_keyring {
                    self.fail(Error::ProtocolViolation)
                } else {
                    self.on_confirmed(exchange)
                },
                Reply::Empty => self.fail(Error::ProtocolViolation),
            },
            _ => self.fail(Error::ProtocolViolation),
        }
    }

    /// The transition on a reply of the prompter. The first reply of a lock
    /// or unlock prompt makes a fresh session, whose private scalar is
    /// random; every other transition is determined by the record and the
    /// reply.
    pub fn prompt_ready(&mut self, reply: Reply, exchange: &str) -> (result: Result<
        Vec<PromptAction>,
        Error,
    >)
        ensures
            old(self).wf() ==> final(self).wf(),
            exists|session: Option<Seq<u8>>|
                (final(self)@, outcome_of(result)) == #[trigger] spec_prompt_ready(
                    old(self)@,
                    reply,
                    exchange@,
                    session,
                ),
            !needs_session(old(self)@, reply) ==> (final(self)@, outcome_of(result))
                == spec_prompt_ready(old(self)@, reply, exchange@, None),
    {
        let needs = match (&self.state, reply, self.role) {
            (PromptState::AwaitingFirstReady, Reply::Empty, PromptRole::Lock) => true,
            (PromptState::AwaitingFirstReady, Reply::Empty, PromptRole::Unlock) => true,
            _ => false,
        };
        let session = if needs {
            match SecretExchange::new() {
                Ok(session) => Some(session),
                Err(_) => None,
            }
        } else {
            None
        };
        self.prompt_ready_with(reply, exchange, session)
    }

    /// The transition on the end of an attempt to open the keyring.
    pub fn keyring_opened(&mut self, outcome: KeyringOutcome) -> (result: Result<
        Vec<PromptAction>,
        Error,
    >)
        ensures
            old(self).wf() ==> final(self).wf(),
            (final(self)@, outcome_of(result)) == spec_keyring_opened(old(self)@, outcome),
    {
        proof {
            if self.wf() {
                lemma_transitions_keep_invariant(self@, Reply::No, Seq::empty(), None, outcome);
            }
        }
        let waiting = match self.state {
            PromptState::AwaitingSecondReady => self.awaiting_keyring,
            _ => false,
        };
        if !waiting {
            let actions: Vec<PromptAction> = Vec::new();
            assert(actions_of(actions@) =~= Seq::<ActionView>::empty());
            return Ok(actions);
        }
        match outcome {
            KeyringOutcome::Opened => self.complete(false),
            KeyringOutcome::Unavailable => self.dismiss(),
            KeyringOutcome::IncorrectSecret => {
                let offer = match &self.offer {
                    Some(offer) => Some(offer.clone()),
                    None => None,
                };
                match offer {
                    Some(offer) => if self.attempts < MAX_UNLOCK_ATTEMPTS - 1 {
                        self.attempts = self.attempts + 1;
                        self.awaiting_keyring = false;
                        let mut actions: Vec<PromptAction> = Vec::new();
                        actions.push(
                            PromptAction::PerformPrompt {
                                prompt_type: PromptType::Confirm,
                                properties: Properties::for_unlock(),
                                exchange: offer,
                            },
                        );
                        proof {
                            assert(actions_of(actions@) =~= spec_keyring_opened(
                                old(self)@,
                                outcome,
                            ).1->Ok_0);
                        }
                        Ok(actions)
                    } else {
                        self.dismiss()
                    },
                    None => self.dismiss(),
                }
            },
        }
    }
}

} // verus!
