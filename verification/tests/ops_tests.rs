use spite_core::memory_store::MemoryMailStore;
use spite_core::ops::{
    begin_op, finish_op, op_to_sub, plan_op, Rollback, stage_bulk, undo_bulk, StageError, BatchOutcome, BatchRun, BatchSub, ItemOutcome, MailOp, OpError, SubResult,
    BATCH_CHUNK,
};
use spite_core::store::{Folder, MailStore, Message, MessageSummary};
use spite_core::sync::SourceError;

fn folder(id: &str, name: &str) -> Folder {
    Folder { id: id.into(), display_name: name.into(), well_known_name: Some(id.into()), parent_id: None }
}

fn msg(id: &str, folder: &str) -> Message {
    Message {
        summary: MessageSummary {
            id: id.into(),
            folder_id: folder.into(),
            subject: format!("subject {id}"),
            from_name: "A".into(),
            from_address: "a@x.com".into(),
            received_at: 100,
            preview: "hi".into(),
            is_read: false,
            has_attachments: false,
            flag_status: "notFlagged".into(),
            inference_classification: "focused".into(),
            is_draft: false,
        },
        conversation_id: None,
        body_html: Some("<p>hi</p>".into()),
        body_content_type: Some("html".into()),
        internet_message_id: Some(format!("{id}@x")),
        categories: vec![],
    }
}

fn store_with_messages(ids: &[&str]) -> MemoryMailStore {
    let mut store = MemoryMailStore::default();
    store.upsert_folders(&[folder("inbox", "Inbox"), folder("archive", "Archive")]).unwrap();
    let msgs: Vec<Message> = ids.iter().map(|id| msg(id, "inbox")).collect();
    store.upsert_messages(&msgs).unwrap();
    store
}

/// The whole write pipeline against a scripted server: `fail` refuses the
/// call; a move confirms with `{id}-in-{dest}`.
fn execute(store: &mut MemoryMailStore, op: MailOp, fail: bool) -> Result<String, OpError> {
    let rollback = begin_op(store, &op)?;
    let outcome = if fail {
        Err(SourceError::Http("boom".into()))
    } else {
        match &op {
            MailOp::Move { id, dest_folder_id } => Ok(Some(format!("{id}-in-{dest_folder_id}"))),
            _ => Ok(None),
        }
    };
    finish_op(store, &op, rollback, outcome)
}

#[test]
fn success_paths_apply_and_confirm() {
    let mut store = store_with_messages(&["m1"]);
    execute(&mut store, MailOp::SetRead { id: "m1".into(), is_read: true }, false).unwrap();
    assert!(store.get_message("m1").unwrap().unwrap().summary.is_read);

    execute(&mut store, MailOp::SetFlag { id: "m1".into(), flagged: true }, false).unwrap();
    assert_eq!(store.get_message("m1").unwrap().unwrap().summary.flag_status, "flagged");

    let new_id =
        execute(&mut store, MailOp::Move { id: "m1".into(), dest_folder_id: "archive".into() }, false).unwrap();
    assert_eq!(new_id, "m1-in-archive");
    assert!(store.get_message("m1").unwrap().is_none());
    let moved = store.get_message("m1-in-archive").unwrap().unwrap();
    assert_eq!(moved.summary.folder_id, "archive");
}

#[test]
fn failure_rolls_back_every_op_type() {
    let ops = vec![
        MailOp::SetRead { id: "m1".into(), is_read: true },
        MailOp::SetFlag { id: "m1".into(), flagged: true },
        MailOp::SetCategories { id: "m1".into(), categories: vec!["Red".into()] },
        MailOp::SetInference { id: "m1".into(), focused: false },
        MailOp::Move { id: "m1".into(), dest_folder_id: "archive".into() },
        MailOp::HardDelete { id: "m1".into() },
    ];
    for op in ops {
        let mut store = store_with_messages(&["m1"]);
        let before = store.get_message("m1").unwrap().unwrap();
        let err = execute(&mut store, op.clone(), true);
        assert!(matches!(err, Err(OpError::Source(SourceError::Http(_)))), "{op:?}");
        assert_eq!(store.get_message("m1").unwrap().unwrap(), before, "rollback of {op:?}");
    }
}

#[test]
fn missing_message_is_an_error_not_a_panic() {
    let mut store = store_with_messages(&["m1"]);
    let err = execute(&mut store, MailOp::SetRead { id: "ghost".into(), is_read: true }, false);
    assert!(matches!(err, Err(OpError::NotFound(_))));
    assert_eq!(err.unwrap_err().message(), "message not found: ghost");
}

#[test]
fn op_subrequests_carry_method_url_and_json() {
    let s = op_to_sub(3, &MailOp::SetRead { id: "m1".into(), is_read: true });
    assert_eq!((s.index, s.method, s.url.as_str(), s.body.as_deref()), (3, "PATCH", "/me/messages/m1", Some(r#"{"isRead":true}"#)));
    let s = op_to_sub(0, &MailOp::SetFlag { id: "m1".into(), flagged: false });
    assert_eq!(s.body.as_deref(), Some(r#"{"flag":{"flagStatus":"notFlagged"}}"#));
    let s = op_to_sub(0, &MailOp::SetCategories { id: "m1".into(), categories: vec!["Red".into(), "Q\"1\\".into()] });
    assert_eq!(s.body.as_deref(), Some(r#"{"categories":["Red","Q\"1\\"]}"#));
    let s = op_to_sub(0, &MailOp::SetCategories { id: "m1".into(), categories: vec![] });
    assert_eq!(s.body.as_deref(), Some(r#"{"categories":[]}"#));
    let s = op_to_sub(0, &MailOp::SetInference { id: "m1".into(), focused: true });
    assert_eq!(s.body.as_deref(), Some(r#"{"inferenceClassification":"focused"}"#));
    let s = op_to_sub(0, &MailOp::Move { id: "m1".into(), dest_folder_id: "arch\nive".into() });
    assert_eq!((s.method, s.url.as_str()), ("POST", "/me/messages/m1/move"));
    assert_eq!(s.body.as_deref(), Some(r#"{"destinationId":"arch\nive"}"#));
    let s = op_to_sub(0, &MailOp::HardDelete { id: "m1".into() });
    assert_eq!((s.method, s.body), ("DELETE", None));
    let s = op_to_sub(0, &MailOp::Move { id: "m".into(), dest_folder_id: "\u{1}".into() });
    assert_eq!(s.body.as_deref(), Some("{\"destinationId\":\"\\u0001\"}"));
}

/// Apply a move optimistically, as the shell does before a batch fires.
fn apply_move(store: &mut MemoryMailStore, id: &str, dest: &str) -> (MailOp, Message) {
    let snapshot = store.get_message(id).unwrap().unwrap();
    store.move_message(id, dest, None).unwrap();
    (MailOp::Move { id: id.into(), dest_folder_id: dest.into() }, snapshot)
}

/// Drive a batch with a scripted writer; `None` from the script for a
/// chunk is a transport failure.
fn run_batch(
    store: &mut MemoryMailStore,
    items: Vec<(MailOp, Message)>,
    script: impl Fn(&BatchSub) -> SubResult,
    transport_fail: bool,
) -> (BatchOutcome, usize) {
    let mut run = BatchRun::new(items);
    let mut chunks = 0;
    while let Some(subs) = run.next_chunk() {
        chunks += 1;
        assert!(subs.len() <= BATCH_CHUNK);
        let answer = if transport_fail {
            Err(SourceError::Http("network down".into()))
        } else {
            Ok(subs.iter().map(&script).collect())
        };
        assert!(run.settle(store, answer));
    }
    (run.finish(), chunks)
}

fn ok_move(s: &BatchSub, new_id: Option<String>) -> SubResult {
    SubResult { index: s.index, status: 201, new_id, error_message: None }
}

#[test]
fn batch_partial_failure_rolls_back_only_failed_items() {
    let mut store = store_with_messages(&["m1", "m2", "m3"]);
    let items = vec![
        apply_move(&mut store, "m1", "archive"),
        apply_move(&mut store, "m2", "archive"),
        apply_move(&mut store, "m3", "archive"),
    ];
    let (out, _) = run_batch(
        &mut store,
        items,
        |s| {
            if s.index == 1 {
                SubResult { index: 1, status: 403, new_id: None, error_message: Some("quota exceeded".into()) }
            } else {
                ok_move(s, Some(format!("moved-{}", s.index)))
            }
        },
        false,
    );
    assert!(store.get_message("m1").unwrap().is_none());
    assert_eq!(store.get_message("moved-0").unwrap().unwrap().summary.folder_id, "archive");
    assert!(store.get_message("moved-2").unwrap().is_some());
    let m2 = store.get_message("m2").unwrap().unwrap();
    assert_eq!(m2.summary.folder_id, "inbox");
    assert_eq!(out.failed_ids(), ["m2"]);
    assert_eq!(out.failed_count(), 1);
    assert_eq!(out.outcomes[1].error.as_deref(), Some("403: quota exceeded"));
    assert_eq!(out.outcomes[0].new_id.as_deref(), Some("moved-0"));
}

#[test]
fn batch_chunks_selections_over_twenty() {
    let ids: Vec<String> = (0..25).map(|i| format!("m{i}")).collect();
    let refs: Vec<&str> = ids.iter().map(String::as_str).collect();
    let mut store = store_with_messages(&refs);
    let items: Vec<_> = refs.iter().map(|id| apply_move(&mut store, id, "archive")).collect();
    let (out, chunks) = run_batch(&mut store, items, |s| ok_move(s, Some(format!("a-{}", s.index))), false);
    assert_eq!(chunks, 2);
    assert_eq!(out.failed_count(), 0);
    assert!(store.get_message("a-24").unwrap().is_some());
}

#[test]
fn batch_transport_failure_rolls_back_everything() {
    let mut store = store_with_messages(&["m1", "m2"]);
    let items = vec![apply_move(&mut store, "m1", "archive"), apply_move(&mut store, "m2", "archive")];
    let (out, _) = run_batch(&mut store, items, |s| ok_move(s, None), true);
    assert_eq!(out.failed_count(), 2);
    assert_eq!(store.get_message("m1").unwrap().unwrap().summary.folder_id, "inbox");
    assert_eq!(store.get_message("m2").unwrap().unwrap().summary.folder_id, "inbox");
    assert_eq!(out.outcomes[0].error.as_deref(), Some("http error: network down"));
}

#[test]
fn batch_mixed_ops_reconcile_and_apply() {
    let mut store = store_with_messages(&["m1", "m2"]);
    let read_snap = store.get_message("m1").unwrap().unwrap();
    store.set_read_state("m1", true).unwrap();
    let move_item = apply_move(&mut store, "m2", "archive");
    let items = vec![(MailOp::SetRead { id: "m1".into(), is_read: true }, read_snap), move_item];
    let (out, _) = run_batch(
        &mut store,
        items,
        |s| SubResult { index: s.index, status: 200, new_id: Some("m2-moved".into()), error_message: None },
        false,
    );
    assert_eq!(out.failed_count(), 0);
    assert!(store.get_message("m1").unwrap().unwrap().summary.is_read);
    assert!(store.get_message("m2-moved").unwrap().is_some());
    assert!(out.outcomes[0].new_id.is_none());
}

#[test]
fn batch_missing_answer_fails_that_item() {
    let mut store = store_with_messages(&["m1"]);
    let snap = store.get_message("m1").unwrap().unwrap();
    store.set_flag_status("m1", "flagged").unwrap();
    let items = vec![(MailOp::SetFlag { id: "m1".into(), flagged: true }, snap)];
    let (out, _) = run_batch(
        &mut store,
        items,
        |s| SubResult { index: s.index + 7, status: 200, new_id: None, error_message: None },
        false,
    );
    assert_eq!(out.failed_ids(), ["m1"]);
    assert_eq!(out.outcomes[0].error.as_deref(), Some("no response in batch"));
    assert_eq!(store.get_message("m1").unwrap().unwrap().summary.flag_status, "notFlagged");
    let o: &ItemOutcome = &out.outcomes[0];
    assert_eq!(o.id, "m1");
}

#[test]
fn staging_applies_found_ops_and_undo_restores_them() {
    let mut store = store_with_messages(&["a", "b", "c"]);
    let before: Vec<Message> = ["a", "b", "c"].iter().map(|id| store.get_message(id).unwrap().unwrap()).collect();
    let ops = vec![
        MailOp::SetRead { id: "a".into(), is_read: true },
        MailOp::SetFlag { id: "missing".into(), flagged: true },
        MailOp::Move { id: "b".into(), dest_folder_id: "archive".into() },
        MailOp::HardDelete { id: "c".into() },
    ];
    let items = stage_bulk(&mut store, ops).unwrap();
    // The op on a missing message is dropped; each kept op has its snapshot.
    assert_eq!(items.len(), 3);
    assert_eq!(items[0].1.summary.id, "a");
    assert!(!items[0].1.summary.is_read);
    assert!(store.get_message("a").unwrap().unwrap().summary.is_read);
    assert_eq!(store.get_message("b").unwrap().unwrap().summary.folder_id, "archive");
    assert!(store.get_message("c").unwrap().is_none());

    undo_bulk(&mut store, &items).unwrap();
    for m in &before {
        let now = store.get_message(&m.summary.id).unwrap().unwrap();
        assert_eq!(now.summary.folder_id, m.summary.folder_id);
        assert_eq!(now.summary.is_read, m.summary.is_read);
        assert_eq!(now.body_html, m.body_html);
    }
}

#[test]
fn staging_nothing_found_is_an_error() {
    let mut store = store_with_messages(&["a"]);
    let r = stage_bulk(&mut store, vec![MailOp::HardDelete { id: "zz".into() }]);
    match r {
        Err(e @ StageError::NothingFound) => assert_eq!(e.message(), "no messages found"),
        _ => panic!("expected NothingFound"),
    }
    assert!(store.get_message("a").unwrap().is_some());
}

#[test]
fn plan_op_captures_what_undoes_the_op() {
    let m = msg("m1", "inbox");
    match plan_op(&MailOp::SetRead { id: "ghost".into(), is_read: true }, None) {
        Err(OpError::NotFound(id)) => assert_eq!(id, "ghost"),
        _ => panic!("a missing message is NotFound"),
    }
    match plan_op(&MailOp::SetRead { id: "m1".into(), is_read: true }, Some(&m)) {
        Ok(Rollback::Read { id, is_read }) => assert_eq!((id.as_str(), is_read), ("m1", false)),
        _ => panic!("expected a read rollback"),
    }
    match plan_op(&MailOp::Move { id: "m1".into(), dest_folder_id: "archive".into() }, Some(&m)) {
        Ok(Rollback::RestoreMessage(b)) => assert_eq!(b.summary.folder_id, "inbox"),
        _ => panic!("expected a restore"),
    }
}

#[test]
fn confirmed_writes_without_rekey_leave_the_store_alone() {
    let mut store = store_with_messages(&["m1"]);
    let op = MailOp::SetFlag { id: "m1".into(), flagged: true };
    let rb = begin_op(&mut store, &op).unwrap();
    let before = store.get_message("m1").unwrap().unwrap();
    assert_eq!(finish_op(&mut store, &op, rb, Ok(None)).unwrap(), "m1");
    let after = store.get_message("m1").unwrap().unwrap();
    assert_eq!(after.summary.flag_status, before.summary.flag_status);
    assert_eq!(after.summary.flag_status, "flagged");
}
