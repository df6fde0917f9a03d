//! Tests for the per-document session state machine.

use operational_transform::OperationSeq;
use rustpad_server::database::PersistedDocument;
use rustpad_server::rustpad::{
    Action, ClientMsg, CursorData, EditError, ServerMsg, Session, UserInfo, SEED_OP_ID,
};
use rustpad_server::{generate_document_id, needs_persist, should_evict};

fn insert_op(s: &str) -> OperationSeq {
    let mut o = OperationSeq::default();
    o.insert(s);
    o
}

fn append_op(existing: u64, s: &str) -> OperationSeq {
    let mut o = OperationSeq::default();
    o.retain(existing);
    o.insert(s);
    o
}

fn edit(session: &mut Session, id: u64, revision: usize, operation: OperationSeq) {
    let r = session.handle_message(id, ClientMsg::Edit { revision, operation }, None);
    assert!(r.is_ok());
}

/// Folds the committed history through `apply` from the empty string; by the
/// text invariant this must always equal the current text.
fn folded_text(session: &Session) -> String {
    let mut text = String::new();
    for uop in session.history_since(0) {
        text = uop.operation.apply(&text).unwrap();
    }
    text
}

#[test]
fn single_edit_round_trip() {
    let mut session = Session::new();
    let id = session.connect();
    assert_eq!(id, 0);

    let initial = session.initial_messages(id, None);
    assert_eq!(initial.len(), 2);
    assert!(matches!(initial[0], ServerMsg::Identity(0)));
    assert!(matches!(initial[1], ServerMsg::AuthenticatedEmail(None)));

    let actions = session
        .handle_message(id, ClientMsg::Edit { revision: 0, operation: insert_op("hello") }, None)
        .unwrap();
    assert_eq!(actions.len(), 1);
    assert!(matches!(actions[0], Action::NotifyEdits));
    assert_eq!(session.revision(), 1);
    assert_eq!(session.text(), "hello");
}

#[test]
fn concurrent_inserts_converge() {
    let doc = PersistedDocument { text: String::from("ab"), language: None };
    let mut session = Session::from_document(doc);
    assert_eq!(session.revision(), 1);

    // Client A edits against revision 1.
    let mut a = OperationSeq::default();
    a.retain(1);
    a.insert("X");
    a.retain(1);
    edit(&mut session, 0, 1, a);
    assert_eq!(session.text(), "aXb");

    // Client B also edits against revision 1, unaware of A's commit.
    let mut b = OperationSeq::default();
    b.retain(2);
    b.insert("Y");
    edit(&mut session, 1, 1, b);
    assert_eq!(session.text(), "aXbY");
    assert_eq!(session.revision(), 3);
}

#[test]
fn committed_edit_transforms_stored_cursors() {
    let doc = PersistedDocument { text: String::from("hello"), language: None };
    let mut session = Session::from_document(doc);
    let a = session.connect();
    let b = session.connect();

    let data = CursorData { cursors: vec![5], selections: vec![] };
    session.handle_message(a, ClientMsg::CursorData(data), None).unwrap();

    let mut o = OperationSeq::default();
    o.insert("XX");
    o.retain(5);
    edit(&mut session, b, 1, o);

    let entry = session.cursors.iter().find(|e| e.0 == a).unwrap();
    assert_eq!(entry.1.cursors, vec![7]);
    assert_eq!(session.text(), "XXhello");
}

#[test]
fn selection_endpoints_are_transformed() {
    let doc = PersistedDocument { text: String::from("abcdef"), language: None };
    let mut session = Session::from_document(doc);
    let a = session.connect();
    let data = CursorData { cursors: vec![], selections: vec![(1, 4)] };
    session.handle_message(a, ClientMsg::CursorData(data), None).unwrap();

    // Delete "cd" (offsets 2..4): the selection end clamps to the run start.
    let mut o = OperationSeq::default();
    o.retain(2);
    o.delete(2);
    o.retain(2);
    edit(&mut session, a, 1, o);

    let entry = session.cursors.iter().find(|e| e.0 == a).unwrap();
    assert_eq!(entry.1.selections, vec![(1, 2)]);
}

#[test]
fn stale_revision_is_rejected() {
    let mut session = Session::new();
    edit(&mut session, 0, 0, insert_op("ab"));
    edit(&mut session, 0, 1, append_op(2, "cd"));
    assert_eq!(session.revision(), 2);

    let r = session.handle_message(
        0,
        ClientMsg::Edit { revision: 5, operation: insert_op("x") },
        None,
    );
    match r {
        Err(e) => assert_eq!(e, EditError::InvalidRevision),
        Ok(_) => panic!("stale revision was accepted"),
    }
    assert_eq!(session.revision(), 2);
    assert_eq!(session.text(), "abcd");
}

#[test]
fn oversized_edit_is_rejected() {
    let mut session = Session::new();
    let huge = "x".repeat(256 * 1024 + 1);
    let r = session.handle_message(
        0,
        ClientMsg::Edit { revision: 0, operation: insert_op(&huge) },
        None,
    );
    match r {
        Err(e) => assert_eq!(e, EditError::DocumentTooLarge),
        Ok(_) => panic!("oversized edit was accepted"),
    }
    assert_eq!(session.revision(), 0);
    assert_eq!(session.text(), "");
}

#[test]
fn edit_at_exact_size_cap_is_accepted() {
    let mut session = Session::new();
    let big = "x".repeat(256 * 1024);
    edit(&mut session, 0, 0, insert_op(&big));
    assert_eq!(session.revision(), 1);
    assert_eq!(session.text().len(), 256 * 1024);
}

#[test]
fn mismatched_base_length_is_an_ot_failure() {
    let doc = PersistedDocument { text: String::from("ab"), language: None };
    let mut session = Session::from_document(doc);
    // Base length 5 does not fit a two-character document.
    let mut o = OperationSeq::default();
    o.retain(5);
    let r = session.handle_message(0, ClientMsg::Edit { revision: 1, operation: o }, None);
    match r {
        Err(e) => assert_eq!(e, EditError::OTFailure),
        Ok(_) => panic!("mismatched edit was accepted"),
    }
    assert_eq!(session.revision(), 1);
}

#[test]
fn color_preference_round_trip() {
    let mut session = Session::new();
    let email = Some(String::from("u@x"));
    let actions = session.handle_message(0, ClientMsg::SetColor(210), email).unwrap();
    assert_eq!(actions.len(), 2);
    match &actions[0] {
        Action::Broadcast(ServerMsg::UserColor { email, hue }) => {
            assert_eq!(email.as_str(), "u@x");
            assert_eq!(*hue, 210);
        }
        other => panic!("unexpected action: {:?}", action_kind(other)),
    }
    let stored = match &actions[1] {
        Action::PersistColor { email, hue } => (email.clone(), *hue),
        other => panic!("unexpected action: {:?}", action_kind(other)),
    };

    // Kill the session, recreate it, and bulk-load what the store kept.
    session.kill();
    assert!(session.killed());
    let mut fresh = Session::new();
    fresh.load_colors(&vec![stored]);
    let dump = fresh.initial_messages(7, None);
    assert_eq!(dump.len(), 3);
    match &dump[2] {
        ServerMsg::UserColor { email, hue } => {
            assert_eq!(email.as_str(), "u@x");
            assert_eq!(*hue, 210);
        }
        _ => panic!("expected a color message in the initial dump"),
    }
}

fn action_kind(a: &Action) -> &'static str {
    match a {
        Action::Broadcast(_) => "broadcast",
        Action::NotifyEdits => "notify",
        Action::PersistColor { .. } => "persist-color",
    }
}

#[test]
fn anonymous_color_request_is_ignored() {
    let mut session = Session::new();
    let actions = session.handle_message(0, ClientMsg::SetColor(99), None).unwrap();
    assert!(actions.is_empty());
    assert!(session.user_colors.is_empty());
}

#[test]
fn language_is_last_writer_wins() {
    let mut session = Session::new();
    session.handle_message(0, ClientMsg::SetLanguage(String::from("rust")), None).unwrap();
    let actions = session
        .handle_message(1, ClientMsg::SetLanguage(String::from("python")), None)
        .unwrap();
    match &actions[0] {
        Action::Broadcast(ServerMsg::Language(l)) => assert_eq!(l.as_str(), "python"),
        _ => panic!("expected a language broadcast"),
    }
    let snapshot = session.snapshot();
    assert_eq!(snapshot.language.as_deref(), Some("python"));
}

#[test]
fn presence_lifecycle() {
    let mut session = Session::new();
    let a = session.connect();
    let info = UserInfo { name: String::from("ada"), hue: 120 };
    session.handle_message(a, ClientMsg::ClientInfo(info), None).unwrap();
    assert_eq!(session.users.len(), 1);

    // A second connection's initial dump carries the stored presence.
    let b = session.connect();
    assert_eq!(b, a + 1);
    let dump = session.initial_messages(b, None);
    assert_eq!(dump.len(), 3);
    match &dump[2] {
        ServerMsg::UserInfo { id, info: Some(info) } => {
            assert_eq!(*id, a);
            assert_eq!(info.name, "ada");
            assert_eq!(info.hue, 120);
        }
        _ => panic!("expected a presence message in the initial dump"),
    }

    // Disconnecting emits exactly one `UserInfo { id, info: None }`.
    let msg = session.disconnect(a);
    match msg {
        ServerMsg::UserInfo { id, info: None } => assert_eq!(id, a),
        _ => panic!("expected the disconnect message"),
    }
    assert!(session.users.is_empty());
    assert!(session.cursors.is_empty());
}

#[test]
fn initial_dump_order_is_fixed() {
    let doc = PersistedDocument {
        text: String::from("hi"),
        language: Some(String::from("markdown")),
    };
    let mut session = Session::from_document(doc);
    let a = session.connect();
    session
        .handle_message(a, ClientMsg::ClientInfo(UserInfo { name: String::from("bo"), hue: 3 }), None)
        .unwrap();
    session
        .handle_message(
            a,
            ClientMsg::CursorData(CursorData { cursors: vec![1], selections: vec![] }),
            None,
        )
        .unwrap();
    session.handle_message(a, ClientMsg::SetColor(9), Some(String::from("b@c"))).unwrap();

    let dump = session.initial_messages(5, Some(String::from("me@x")));
    assert_eq!(dump.len(), 7);
    assert!(matches!(dump[0], ServerMsg::Identity(5)));
    match &dump[1] {
        ServerMsg::AuthenticatedEmail(Some(e)) => assert_eq!(e.as_str(), "me@x"),
        _ => panic!("expected the authenticated email"),
    }
    match &dump[2] {
        ServerMsg::History { start, operations } => {
            assert_eq!(*start, 0);
            assert_eq!(operations.len(), 1);
            assert_eq!(operations[0].id, SEED_OP_ID);
        }
        _ => panic!("expected the history dump"),
    }
    match &dump[3] {
        ServerMsg::Language(l) => assert_eq!(l.as_str(), "markdown"),
        _ => panic!("expected the language"),
    }
    assert!(matches!(dump[4], ServerMsg::UserInfo { .. }));
    assert!(matches!(dump[5], ServerMsg::UserCursor { .. }));
    assert!(matches!(dump[6], ServerMsg::UserColor { .. }));
}

#[test]
fn history_since_returns_the_tail() {
    let mut session = Session::new();
    edit(&mut session, 0, 0, insert_op("a"));
    edit(&mut session, 1, 1, append_op(1, "b"));
    edit(&mut session, 2, 2, append_op(2, "c"));
    let tail = session.history_since(1);
    assert_eq!(tail.len(), 2);
    assert_eq!(tail[0].id, 1);
    assert_eq!(tail[1].id, 2);
    assert!(session.history_since(3).is_empty());
    assert!(session.history_since(7).is_empty());
}

#[test]
fn text_equals_folded_history() {
    let doc = PersistedDocument { text: String::from("base"), language: None };
    let mut session = Session::from_document(doc);
    let mut o = OperationSeq::default();
    o.retain(4);
    o.insert("!?");
    edit(&mut session, 0, 1, o);
    let mut p = OperationSeq::default();
    p.delete(1);
    p.insert("B");
    p.retain(5);
    edit(&mut session, 1, 2, p);
    assert_eq!(session.text(), "Base!?");
    assert_eq!(folded_text(&session), session.text());
}

#[test]
fn revision_is_monotonic_and_steps_only_on_commits() {
    let mut session = Session::new();
    let mut last = session.revision();
    // A committed edit increments the revision by one.
    edit(&mut session, 0, 0, insert_op("hi"));
    assert_eq!(session.revision(), last + 1);
    last = session.revision();
    // Rejected edits and presence traffic leave it unchanged.
    let _ = session.handle_message(
        0,
        ClientMsg::Edit { revision: 9, operation: insert_op("x") },
        None,
    );
    assert_eq!(session.revision(), last);
    session.handle_message(0, ClientMsg::SetLanguage(String::from("c")), None).unwrap();
    session
        .handle_message(0, ClientMsg::CursorData(CursorData { cursors: vec![], selections: vec![] }), None)
        .unwrap();
    assert_eq!(session.revision(), last);
}

#[test]
fn seeded_session_uses_the_reserved_id() {
    let doc = PersistedDocument { text: String::from("seeded"), language: None };
    let session = Session::from_document(doc);
    assert_eq!(session.operations.len(), 1);
    assert_eq!(session.operations[0].id, SEED_OP_ID);
    assert_eq!(session.operations[0].id, u64::MAX);
    assert_eq!(session.text(), "seeded");
}

#[test]
fn generated_ids_are_well_formed() {
    for _ in 0..32 {
        let id = generate_document_id();
        assert_eq!(id.len(), 6);
        assert!(id.chars().all(|c| c.is_ascii_alphanumeric()));
    }
}

#[test]
fn persister_and_cleaner_decisions() {
    assert!(!needs_persist(3, 3));
    assert!(!needs_persist(3, 2));
    assert!(needs_persist(3, 4));

    let day = 86400;
    assert!(!should_evict(2 * day, day, 1));
    assert!(should_evict(2 * day + 1, day, 1));
    assert!(!should_evict(0, day, 1));
}
