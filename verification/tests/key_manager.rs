use cryptenv::keys::unavailable_hint;
use cryptenv::keys::unavailable_message;
use cryptenv::keys::KeyManager;
use cryptenv::keys::KeyReply;
use cryptenv::keys::KeyStep;

fn run(create: bool, replies: Vec<KeyReply>) -> (Vec<KeyStep>, KeyManager) {
    let mut manager = KeyManager::new(create);
    let mut steps = vec![manager.step()];
    for reply in replies {
        manager = manager.advance(reply);
        steps.push(manager.step());
    }
    (steps, manager)
}

#[test]
fn the_secret_store_is_asked_first() {
    let manager = KeyManager::new(false);
    assert_eq!(manager.step(), KeyStep::ReadKeyring);
    assert!(manager.pending().is_none());
    assert!(manager.into_key().is_none());
}

#[test]
fn a_key_in_the_secret_store_is_taken() {
    let (steps, manager) = run(false, vec![KeyReply::Found(vec![5u8; 32])]);
    assert_eq!(steps, vec![KeyStep::ReadKeyring, KeyStep::Ready]);
    assert_eq!(manager.into_key().expect("ready").as_bytes(), &[5u8; 32]);
}

#[test]
fn the_key_file_is_the_fallback() {
    let (steps, manager) = run(true, vec![KeyReply::Absent, KeyReply::Found(vec![6u8; 32])]);
    assert_eq!(steps, vec![KeyStep::ReadKeyring, KeyStep::ReadKeyFile, KeyStep::Ready]);
    assert_eq!(manager.into_key().expect("ready").as_bytes(), &[6u8; 32]);
}

#[test]
fn a_key_file_of_another_length_holds_no_key() {
    let (steps, manager) = run(false, vec![KeyReply::Absent, KeyReply::Found(vec![6u8; 31])]);
    assert_eq!(steps, vec![KeyStep::ReadKeyring, KeyStep::ReadKeyFile, KeyStep::Unavailable]);
    assert!(manager.into_key().is_none());
    let (steps, _) = run(false, vec![KeyReply::Found(vec![1u8; 16]), KeyReply::Found(vec![])]);
    assert_eq!(steps, vec![KeyStep::ReadKeyring, KeyStep::ReadKeyFile, KeyStep::Unavailable]);
}

#[test]
fn without_leave_to_create_no_key_is_made() {
    let (steps, manager) = run(false, vec![KeyReply::Absent, KeyReply::Absent, KeyReply::Written]);
    assert_eq!(
        steps,
        vec![KeyStep::ReadKeyring, KeyStep::ReadKeyFile, KeyStep::Unavailable, KeyStep::Unavailable]
    );
    assert!(manager.pending().is_none());
}

#[test]
fn a_new_key_goes_to_the_secret_store_and_is_read_back() {
    let (steps, manager) = run(
        true,
        vec![KeyReply::Absent, KeyReply::Absent, KeyReply::Written, KeyReply::Found(vec![])],
    );
    assert_eq!(
        steps,
        vec![
            KeyStep::ReadKeyring,
            KeyStep::ReadKeyFile,
            KeyStep::WriteKeyring,
            KeyStep::CheckKeyring,
            KeyStep::Ready
        ]
    );
    assert!(manager.into_key().is_some());
}

#[test]
fn the_pending_key_is_the_one_that_comes_out() {
    let manager = KeyManager::new(true).advance(KeyReply::Absent).advance(KeyReply::Absent);
    assert_eq!(manager.step(), KeyStep::WriteKeyring);
    let pending = *manager.pending().expect("a new key").as_bytes();
    let manager = manager.advance(KeyReply::Refused);
    assert_eq!(manager.step(), KeyStep::WriteKeyFile);
    assert_eq!(manager.pending().expect("still held").as_bytes(), &pending);
    let manager = manager.advance(KeyReply::Written);
    assert_eq!(manager.step(), KeyStep::Ready);
    assert_eq!(manager.into_key().expect("ready").as_bytes(), &pending);
}

#[test]
fn a_secret_store_that_does_not_keep_the_key_leads_to_the_file() {
    let (steps, _) = run(
        true,
        vec![KeyReply::Absent, KeyReply::Absent, KeyReply::Written, KeyReply::Absent, KeyReply::Written],
    );
    assert_eq!(
        steps,
        vec![
            KeyStep::ReadKeyring,
            KeyStep::ReadKeyFile,
            KeyStep::WriteKeyring,
            KeyStep::CheckKeyring,
            KeyStep::WriteKeyFile,
            KeyStep::Ready
        ]
    );
}

#[test]
fn a_key_that_can_be_put_nowhere_is_unavailable() {
    let (steps, manager) =
        run(true, vec![KeyReply::Absent, KeyReply::Absent, KeyReply::Refused, KeyReply::Refused]);
    assert_eq!(
        steps,
        vec![
            KeyStep::ReadKeyring,
            KeyStep::ReadKeyFile,
            KeyStep::WriteKeyring,
            KeyStep::WriteKeyFile,
            KeyStep::Unavailable
        ]
    );
    assert!(manager.pending().is_none());
    assert!(manager.into_key().is_none());
}

#[test]
fn the_end_stays_the_end() {
    let (steps, manager) =
        run(false, vec![KeyReply::Found(vec![2u8; 32]), KeyReply::Absent, KeyReply::Refused]);
    assert_eq!(steps, vec![KeyStep::ReadKeyring, KeyStep::Ready, KeyStep::Ready, KeyStep::Ready]);
    assert_eq!(manager.into_key().expect("ready").as_bytes(), &[2u8; 32]);
}

#[test]
fn the_same_replies_lead_through_the_same_steps() {
    let replies = || vec![KeyReply::Absent, KeyReply::Absent, KeyReply::Written, KeyReply::Absent];
    assert_eq!(run(true, replies()).0, run(true, replies()).0);
}

#[test]
fn words_for_a_key_that_cannot_be_had() {
    assert_eq!(unavailable_message(), "failed to read encryption key");
    assert_eq!(
        unavailable_hint(),
        "keyring entry is missing or inaccessible; restore it or re-add values"
    );
}
