use keyring_core::crypto;
use keyring_core::envelope::{decode, encode, ExchangePayload, IV, PRIVATE, PUBLIC, SECRET};
use keyring_core::error::Error;
use keyring_core::key::{Key, KeyStrength};
use keyring_core::prompt::{
    KeyringOutcome, PromptAction, PromptRecord, PromptRole, PromptState, PromptType, Properties,
    Reply, LOGIN_KEYRING, MAX_UNLOCK_ATTEMPTS,
};
use keyring_core::secret_exchange::SecretExchange;
use std::collections::HashMap;

fn targets() -> Vec<String> {
    vec![
        "/org/freedesktop/secrets/collection/o1".to_string(),
        "/org/freedesktop/secrets/collection/o2".to_string(),
    ]
}

fn awaiting_first(role: PromptRole) -> PromptRecord {
    let mut record = PromptRecord::new(role, targets());
    let actions = record.begin_prompting().unwrap();
    assert_eq!(actions.len(), 1);
    assert!(matches!(actions[0], PromptAction::BeginPrompting));
    assert!(matches!(record.state(), PromptState::AwaitingFirstReady));
    record
}

fn offer_in(actions: &[PromptAction]) -> (PromptType, &Properties, String) {
    assert_eq!(actions.len(), 1);
    match &actions[0] {
        PromptAction::PerformPrompt {
            prompt_type,
            properties,
            exchange,
        } => (*prompt_type, properties, exchange.clone()),
        _ => panic!("a prompt was expected"),
    }
}

fn assert_dismissed(record: &PromptRecord, actions: &[PromptAction]) {
    assert_eq!(actions.len(), 2);
    assert!(matches!(actions[0], PromptAction::StopPrompting));
    match &actions[1] {
        PromptAction::Completed { dismissed, result } => {
            assert!(*dismissed);
            assert!(result.is_empty());
        }
        _ => panic!("the completion signal was expected"),
    }
    match record.state() {
        PromptState::Completed { dismissed, result } => {
            assert!(*dismissed);
            assert!(result.is_empty());
        }
        _ => panic!("a completed prompt was expected"),
    }
    assert!(!record.holds_key());
}

fn assert_completed(record: &PromptRecord, actions: &[PromptAction], locked: bool) {
    assert_eq!(actions.len(), 3);
    match &actions[0] {
        PromptAction::SetLocked { locked: l, objects } => {
            assert_eq!(*l, locked);
            assert_eq!(objects, &targets());
        }
        _ => panic!("a change of the lock state was expected"),
    }
    assert!(matches!(actions[1], PromptAction::StopPrompting));
    match &actions[2] {
        PromptAction::Completed { dismissed, result } => {
            assert!(!*dismissed);
            assert_eq!(result, &targets());
        }
        _ => panic!("the completion signal was expected"),
    }
    match record.state() {
        PromptState::Completed { dismissed, result } => {
            assert!(!*dismissed);
            assert_eq!(result, &targets());
        }
        _ => panic!("a completed prompt was expected"),
    }
    assert!(!record.holds_key());
}

fn assert_failed(record: &PromptRecord, kind: Error) {
    match record.state() {
        PromptState::Failed(e) => assert_eq!(*e, kind),
        _ => panic!("a failed prompt was expected"),
    }
    assert!(!record.holds_key());
}

/// What the prompter sends with `yes`: its public value and the password
/// under the key that it shares with the daemon.
fn final_exchange(prompter: &SecretExchange, offer: &str, password: &[u8]) -> String {
    let shared = prompter.create_shared_secret(offer).unwrap();
    let key = Key::new(
        decode(&shared).unwrap().get(PRIVATE).unwrap().to_vec(),
        KeyStrength::Strong,
    );
    let iv = crypto::generate_iv().unwrap();
    let secret = crypto::encrypt(password, &key, &iv).unwrap();
    let public = decode(&prompter.begin()).unwrap().get(PUBLIC).unwrap().to_vec();
    let mut payload = ExchangePayload::new();
    payload.insert(PUBLIC, public);
    payload.insert(SECRET, secret);
    payload.insert(IV, iv);
    encode(&payload)
}

#[test]
fn lock_prompt_happy_path() {
    let mut record = awaiting_first(PromptRole::Lock);
    let actions = record.prompt_ready(Reply::Empty, "").unwrap();
    let (prompt_type, properties, exchange) = offer_in(&actions);
    assert_eq!(prompt_type, PromptType::Confirm);
    assert_eq!(properties.title.as_deref(), Some("Lock Keyring"));
    assert!(exchange.starts_with("[sx-aes-1]\npublic="));
    assert!(matches!(record.state(), PromptState::AwaitingSecondReady));
    assert!(!record.holds_key());

    let actions = record.prompt_ready(Reply::Yes, "").unwrap();
    assert_completed(&record, &actions, true);

    // The two objects are seen locked once the actions are carried out.
    let mut locked: HashMap<String, bool> = HashMap::new();
    for object in targets() {
        locked.insert(object, false);
    }
    for action in &actions {
        if let PromptAction::SetLocked { locked: l, objects } = action {
            for object in objects {
                locked.insert(object.clone(), *l);
            }
        }
    }
    assert_eq!(locked.len(), 2);
    for object in targets() {
        assert_eq!(locked.get(&object), Some(&true));
    }
}

#[test]
fn unlock_prompt_dismissal() {
    let prompter = SecretExchange::new().unwrap();
    let mut record = awaiting_first(PromptRole::Unlock);
    let actions = record.prompt_ready(Reply::Empty, &prompter.begin()).unwrap();
    let (prompt_type, properties, _) = offer_in(&actions);
    assert_eq!(prompt_type, PromptType::Confirm);
    assert_eq!(properties.title.as_deref(), Some("Unlock Keyring"));
    assert!(matches!(record.state(), PromptState::AwaitingSecondReady));
    assert!(record.holds_key());

    let actions = record.prompt_ready(Reply::No, "").unwrap();
    assert_dismissed(&record, &actions);
}

#[test]
fn lock_prompt_dismissal() {
    let mut record = awaiting_first(PromptRole::Lock);
    record.prompt_ready(Reply::Empty, "").unwrap();
    let actions = record.prompt_ready(Reply::No, "").unwrap();
    assert_dismissed(&record, &actions);
}

#[test]
fn unlock_prompt_happy_path() {
    let prompter = SecretExchange::new().unwrap();
    let mut record = awaiting_first(PromptRole::Unlock);
    let actions = record.prompt_ready(Reply::Empty, &prompter.begin()).unwrap();
    let (_, _, offer) = offer_in(&actions);

    let exchange = final_exchange(&prompter, &offer, b"password");
    let actions = record.prompt_ready(Reply::Yes, &exchange).unwrap();
    assert_eq!(actions.len(), 1);
    match &actions[0] {
        PromptAction::OpenKeyring { name, secret } => {
            assert_eq!(name, LOGIN_KEYRING);
            assert_eq!(name, "login");
            assert_eq!(secret.to_vec(), b"password".to_vec());
        }
        _ => panic!("the keyring was expected to be opened"),
    }
    assert!(matches!(record.state(), PromptState::AwaitingSecondReady));
    assert!(record.holds_key());

    let actions = record.keyring_opened(KeyringOutcome::Opened).unwrap();
    assert_completed(&record, &actions, false);
}

#[test]
fn an_incorrect_secret_shows_the_prompt_again() {
    assert_eq!(MAX_UNLOCK_ATTEMPTS, 3);
    let prompter = SecretExchange::new().unwrap();
    let mut record = awaiting_first(PromptRole::Unlock);
    let actions = record.prompt_ready(Reply::Empty, &prompter.begin()).unwrap();
    let (_, _, offer) = offer_in(&actions);

    for attempt in 1..MAX_UNLOCK_ATTEMPTS {
        let exchange = final_exchange(&prompter, &offer, b"wrong");
        let actions = record.prompt_ready(Reply::Yes, &exchange).unwrap();
        assert!(matches!(actions[0], PromptAction::OpenKeyring { .. }));
        let actions = record.keyring_opened(KeyringOutcome::IncorrectSecret).unwrap();
        let (prompt_type, properties, again) = offer_in(&actions);
        assert_eq!(prompt_type, PromptType::Confirm);
        assert_eq!(properties.continue_label.as_deref(), Some("Unlock"));
        assert_eq!(again, offer);
        assert_eq!(record.attempts(), attempt);
        assert!(matches!(record.state(), PromptState::AwaitingSecondReady));
        assert!(record.holds_key());
    }
    let exchange = final_exchange(&prompter, &offer, b"wrong again");
    record.prompt_ready(Reply::Yes, &exchange).unwrap();
    let actions = record.keyring_opened(KeyringOutcome::IncorrectSecret).unwrap();
    assert_dismissed(&record, &actions);
}

#[test]
fn the_right_secret_after_a_wrong_one_unlocks() {
    let prompter = SecretExchange::new().unwrap();
    let mut record = awaiting_first(PromptRole::Unlock);
    let actions = record.prompt_ready(Reply::Empty, &prompter.begin()).unwrap();
    let (_, _, offer) = offer_in(&actions);
    record
        .prompt_ready(Reply::Yes, &final_exchange(&prompter, &offer, b"wrong"))
        .unwrap();
    record.keyring_opened(KeyringOutcome::IncorrectSecret).unwrap();
    let actions = record
        .prompt_ready(Reply::Yes, &final_exchange(&prompter, &offer, b"right"))
        .unwrap();
    match &actions[0] {
        PromptAction::OpenKeyring { secret, .. } => assert_eq!(secret.to_vec(), b"right".to_vec()),
        _ => panic!("the keyring was expected to be opened"),
    }
    let actions = record.keyring_opened(KeyringOutcome::Opened).unwrap();
    assert_completed(&record, &actions, false);
}

#[test]
fn a_keyring_that_cannot_be_read_dismisses_the_prompt() {
    let prompter = SecretExchange::new().unwrap();
    let mut record = awaiting_first(PromptRole::Unlock);
    let actions = record.prompt_ready(Reply::Empty, &prompter.begin()).unwrap();
    let (_, _, offer) = offer_in(&actions);
    record
        .prompt_ready(Reply::Yes, &final_exchange(&prompter, &offer, b"password"))
        .unwrap();
    let actions = record.keyring_opened(KeyringOutcome::Unavailable).unwrap();
    assert_dismissed(&record, &actions);
}

#[test]
fn a_final_exchange_without_secret_dismisses_the_prompt() {
    let prompter = SecretExchange::new().unwrap();
    let mut record = awaiting_first(PromptRole::Unlock);
    record.prompt_ready(Reply::Empty, &prompter.begin()).unwrap();
    let actions = record.prompt_ready(Reply::Yes, &prompter.begin()).unwrap();
    assert_dismissed(&record, &actions);

    let mut record = awaiting_first(PromptRole::Unlock);
    record.prompt_ready(Reply::Empty, &prompter.begin()).unwrap();
    let actions = record.prompt_ready(Reply::Yes, "no envelope").unwrap();
    assert_dismissed(&record, &actions);
}

#[test]
fn cancel_while_the_keyring_is_opened() {
    let prompter = SecretExchange::new().unwrap();
    let mut record = awaiting_first(PromptRole::Unlock);
    let actions = record.prompt_ready(Reply::Empty, &prompter.begin()).unwrap();
    let (_, _, offer) = offer_in(&actions);
    record
        .prompt_ready(Reply::Yes, &final_exchange(&prompter, &offer, b"password"))
        .unwrap();
    let actions = record.prompt_ready(Reply::No, "").unwrap();
    assert_dismissed(&record, &actions);
    // The late report changes nothing.
    let actions = record.keyring_opened(KeyringOutcome::Opened).unwrap();
    assert!(actions.is_empty());
    assert!(matches!(
        record.state(),
        PromptState::Completed { dismissed: true, .. }
    ));
}

#[test]
fn a_report_that_nobody_waits_for_changes_nothing() {
    let mut record = PromptRecord::new(PromptRole::Unlock, targets());
    assert!(record.keyring_opened(KeyringOutcome::Opened).unwrap().is_empty());
    assert!(matches!(record.state(), PromptState::New));
    let mut record = awaiting_first(PromptRole::Lock);
    record.prompt_ready(Reply::Empty, "").unwrap();
    assert!(record
        .keyring_opened(KeyringOutcome::IncorrectSecret)
        .unwrap()
        .is_empty());
    assert!(matches!(record.state(), PromptState::AwaitingSecondReady));
    assert_eq!(record.attempts(), 0);
}

#[test]
fn unlock_needs_the_public_value_of_the_prompter() {
    for exchange in ["", "[sx-aes-1]\n", "[sx-aes-1]\nsecret=AAEC", "[sx-aes-1]\npublic=?"] {
        let mut record = awaiting_first(PromptRole::Unlock);
        assert_eq!(
            record.prompt_ready(Reply::Empty, exchange).err(),
            Some(Error::BadExchange)
        );
        assert_failed(&record, Error::BadExchange);
    }
}

#[test]
fn a_session_that_cannot_be_made_is_a_crypto_failure() {
    for role in [PromptRole::Lock, PromptRole::Unlock] {
        let mut record = awaiting_first(role);
        assert_eq!(
            record
                .prompt_ready_with(Reply::Empty, "[sx-aes-1]\npublic=Ag==", None)
                .err(),
            Some(Error::Crypto)
        );
        assert_failed(&record, Error::Crypto);
    }
}

#[test]
fn the_first_reply_with_a_session_at_hand() {
    let session =
        SecretExchange::from_private_key(Key::new(vec![1], KeyStrength::Strong)).unwrap();
    let offer = session.begin();
    let mut record = awaiting_first(PromptRole::Unlock);
    let actions = record
        .prompt_ready_with(Reply::Empty, "[sx-aes-1]\npublic=Ag==", Some(session))
        .unwrap();
    let (_, properties, exchange) = offer_in(&actions);
    assert_eq!(exchange, offer);
    assert_eq!(properties.message.as_deref(), Some("Authentication required"));
    assert!(record.holds_key());
}

#[test]
fn replies_out_of_order_fail_the_prompt() {
    // Before the prompt was started.
    for reply in [Reply::Empty, Reply::Yes, Reply::No] {
        let mut record = PromptRecord::new(PromptRole::Lock, targets());
        assert_eq!(
            record.prompt_ready(reply, "").err(),
            Some(Error::ProtocolViolation)
        );
        assert_failed(&record, Error::ProtocolViolation);
    }
    // `yes` or `no` as the first reply.
    for reply in [Reply::Yes, Reply::No] {
        let mut record = awaiting_first(PromptRole::Unlock);
        assert_eq!(
            record.prompt_ready(reply, "").err(),
            Some(Error::ProtocolViolation)
        );
        assert_failed(&record, Error::ProtocolViolation);
    }
    // The empty reply twice.
    let mut record = awaiting_first(PromptRole::Lock);
    record.prompt_ready(Reply::Empty, "").unwrap();
    assert_eq!(
        record.prompt_ready(Reply::Empty, "").err(),
        Some(Error::ProtocolViolation)
    );
    assert_failed(&record, Error::ProtocolViolation);
    // A reply after completion.
    let mut record = awaiting_first(PromptRole::Lock);
    record.prompt_ready(Reply::Empty, "").unwrap();
    record.prompt_ready(Reply::Yes, "").unwrap();
    assert_eq!(
        record.prompt_ready(Reply::Yes, "").err(),
        Some(Error::ProtocolViolation)
    );
    assert_failed(&record, Error::ProtocolViolation);
    // Starting twice.
    let mut record = awaiting_first(PromptRole::Lock);
    assert_eq!(record.begin_prompting().err(), Some(Error::ProtocolViolation));
    assert_failed(&record, Error::ProtocolViolation);
}

#[test]
fn a_second_yes_while_the_keyring_is_opened_fails_the_prompt() {
    let prompter = SecretExchange::new().unwrap();
    let mut record = awaiting_first(PromptRole::Unlock);
    let actions = record.prompt_ready(Reply::Empty, &prompter.begin()).unwrap();
    let (_, _, offer) = offer_in(&actions);
    let exchange = final_exchange(&prompter, &offer, b"password");
    record.prompt_ready(Reply::Yes, &exchange).unwrap();
    assert_eq!(
        record.prompt_ready(Reply::Yes, &exchange).err(),
        Some(Error::ProtocolViolation)
    );
    assert_failed(&record, Error::ProtocolViolation);
}

#[test]
fn a_prompt_that_creates_a_collection_is_dismissed() {
    let mut record = awaiting_first(PromptRole::CreateCollection);
    let actions = record.prompt_ready(Reply::Empty, "").unwrap();
    assert_dismissed(&record, &actions);
}

#[test]
fn a_new_record() {
    let record = PromptRecord::new(PromptRole::Unlock, targets());
    assert_eq!(record.role(), PromptRole::Unlock);
    assert_eq!(record.objects(), &targets());
    assert!(matches!(record.state(), PromptState::New));
    assert!(!record.holds_key());
    assert_eq!(record.attempts(), 0);
}

#[test]
fn reply_alphabet() {
    assert_eq!(Reply::from_wire("no"), Ok(Reply::No));
    assert_eq!(Reply::from_wire("yes"), Ok(Reply::Yes));
    assert_eq!(Reply::from_wire(""), Ok(Reply::Empty));
    for other in ["Yes", "NO", " ", "maybe", "yes ", "n", "noo"] {
        assert_eq!(Reply::from_wire(other), Err(Error::ProtocolViolation));
    }
    assert_eq!(Reply::No.as_str(), "no");
    assert_eq!(Reply::Yes.as_str(), "yes");
    assert_eq!(Reply::Empty.as_str(), "");
    for reply in [Reply::No, Reply::Yes, Reply::Empty] {
        assert_eq!(Reply::from_wire(reply.as_str()), Ok(reply));
    }
}

#[test]
fn prompt_type_names() {
    assert_eq!(PromptType::Confirm.as_str(), "confirm");
    assert_eq!(PromptType::Password.as_str(), "password");
    assert_eq!(PromptType::from_wire("confirm"), Some(PromptType::Confirm));
    assert_eq!(PromptType::from_wire("password"), Some(PromptType::Password));
    assert_eq!(PromptType::from_wire("Confirm"), None);
    assert_eq!(PromptType::from_wire(""), None);
}

#[test]
fn properties_of_the_lock_prompt() {
    let p = Properties::for_lock();
    assert_eq!(p.title.as_deref(), Some("Lock Keyring"));
    assert_eq!(p.choice_label, None);
    assert_eq!(p.description.as_deref(), Some("Confirm locking 'login' Keyring"));
    assert_eq!(p.message.as_deref(), Some("Lock Keyring"));
    assert_eq!(p.caller_window, None);
    assert_eq!(p.warning, None);
    assert_eq!(p.password_new, Some(false));
    assert_eq!(p.password_strength, Some(0));
    assert_eq!(p.choice_chosen, Some(false));
    assert_eq!(p.continue_label.as_deref(), Some("Lock"));
    assert_eq!(p.cancel_label.as_deref(), Some("Cancel"));
}

#[test]
fn properties_of_the_unlock_prompt() {
    let p = Properties::for_unlock();
    assert_eq!(p.title.as_deref(), Some("Unlock Keyring"));
    assert_eq!(p.choice_label, None);
    assert_eq!(
        p.description.as_deref(),
        Some("An application wants access to the keyring 'login', but it is locked")
    );
    assert_eq!(p.message.as_deref(), Some("Authentication required"));
    assert_eq!(p.caller_window, None);
    assert_eq!(p.warning, None);
    assert_eq!(p.password_new, Some(false));
    assert_eq!(p.password_strength, Some(0));
    assert_eq!(p.choice_chosen, Some(false));
    assert_eq!(p.continue_label.as_deref(), Some("Unlock"));
    assert_eq!(p.cancel_label.as_deref(), Some("Cancel"));
}
