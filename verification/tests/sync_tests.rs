use std::collections::VecDeque;

use spite_core::memory_store::MemoryMailStore;
use spite_core::store::{Folder, MailStore, Message, MessageSummary, SyncState};
use spite_core::sync::{
    apply_page, begin_round, initial_request, new_report, round_start, throttle_wait, DeltaPage, DeltaRequest,
    PageToken, RoundStart, SourceError, SyncError, SyncReport, MAX_THROTTLE_RETRIES,
};

fn inbox() -> Folder {
    Folder {
        id: "inbox-id".into(),
        display_name: "Inbox".into(),
        well_known_name: Some("inbox".into()),
        parent_id: None,
    }
}

fn msg(id: &str, received_at: i64, is_read: bool) -> Message {
    Message {
        summary: MessageSummary {
            id: id.into(),
            folder_id: String::new(),
            subject: format!("subject {id}"),
            from_name: "Sender".into(),
            from_address: "s@example.com".into(),
            received_at,
            preview: String::new(),
            is_read,
            has_attachments: false,
            flag_status: "notFlagged".to_string(),
            inference_classification: "focused".to_string(),
            is_draft: false,
        },
        conversation_id: None,
        body_html: None,
        body_content_type: None,
        internet_message_id: None,
        categories: Vec::new(),
    }
}

fn page(messages: Vec<Message>, removed: Vec<&str>, token: PageToken) -> DeltaPage {
    DeltaPage { messages, removed_ids: removed.into_iter().map(String::from).collect(), token }
}

/// A scripted server: the cutoff, then one answer per page request.
struct Script {
    cutoff: i64,
    pages: VecDeque<Result<DeltaPage, SourceError>>,
    requests: Vec<DeltaRequest>,
}

impl Script {
    fn new(pages: Vec<Result<DeltaPage, SourceError>>) -> Self {
        Script { cutoff: 1_000, pages: pages.into(), requests: Vec::new() }
    }

    fn fetch(&mut self, r: &DeltaRequest) -> Result<DeltaPage, SourceError> {
        self.requests.push(r.clone());
        self.pages.pop_front().expect("script ran out of pages")
    }
}

/// One sync round, driven the way the shell drives it.
fn sync_folder(script: &mut Script, store: &mut MemoryMailStore, folder: &Folder) -> Result<SyncReport, SyncError> {
    let cursor = begin_round(store, folder)?;
    let (mut request, initial) = match round_start(cursor) {
        RoundStart::Resume(r) => (r, false),
        RoundStart::NeedCutoff => (initial_request(&folder.id, script.cutoff), true),
    };
    let mut report = new_report(initial);
    loop {
        let mut attempts = 0;
        let page = loop {
            match script.fetch(&request) {
                Err(e) => match throttle_wait(attempts, &e) {
                    Some(_wait) => attempts += 1,
                    None => return Err(SyncError::Source(e)),
                },
                Ok(p) => break p,
            }
        };
        match apply_page(store, &folder.id, page, &mut report, 42)? {
            Some(next) => request = next,
            None => return Ok(report),
        }
    }
}

#[test]
fn initial_backfill_pages_to_delta_link_and_stores_cursor() {
    let mut script = Script::new(vec![
        Ok(page(
            vec![msg("m1", 300, false), msg("m2", 200, false)],
            vec![],
            PageToken::Next("https://graph/next-1".into()),
        )),
        Ok(page(vec![msg("m3", 100, false)], vec![], PageToken::Delta("https://graph/delta-1".into()))),
    ]);
    let mut store = MemoryMailStore::default();
    let report = sync_folder(&mut script, &mut store, &inbox()).unwrap();
    assert!(report.initial);
    assert_eq!(report.pages, 2);
    assert_eq!(report.upserted, 3);
    assert_eq!(report.removed, 0);

    let listed = store.list_messages("inbox-id", 10, 0).unwrap();
    assert_eq!(listed.iter().map(|m| m.id.as_str()).collect::<Vec<_>>(), ["m1", "m2", "m3"]);

    let state = store.get_sync_state("inbox-id").unwrap().unwrap();
    assert_eq!(state.delta_link.as_deref(), Some("https://graph/delta-1"));
    assert!(state.last_synced_at.is_some());

    assert_eq!(
        script.requests,
        vec![
            DeltaRequest::Initial { folder_id: "inbox-id".into(), since_epoch: 1_000 },
            DeltaRequest::Url("https://graph/next-1".into()),
        ]
    );
}

#[test]
fn incremental_sync_uses_stored_cursor_and_applies_changes() {
    let mut store = MemoryMailStore::default();
    store.upsert_folders(&[inbox()]).unwrap();
    let mut m1 = msg("m1", 300, false);
    m1.summary.folder_id = "inbox-id".into();
    let mut m2 = msg("m2", 200, false);
    m2.summary.folder_id = "inbox-id".into();
    store.upsert_messages(&[m1, m2]).unwrap();
    store
        .set_sync_state(&SyncState {
            folder_id: "inbox-id".into(),
            delta_link: Some("https://graph/delta-1".into()),
            last_synced_at: Some(1),
        })
        .unwrap();

    let mut script = Script::new(vec![Ok(page(
        vec![msg("m1", 300, true)],
        vec!["m2"],
        PageToken::Delta("https://graph/delta-2".into()),
    ))]);
    let report = sync_folder(&mut script, &mut store, &inbox()).unwrap();
    assert!(!report.initial);
    assert_eq!(report.upserted, 1);
    assert_eq!(report.removed, 1);
    assert_eq!(script.requests, vec![DeltaRequest::Url("https://graph/delta-1".into())]);

    let listed = store.list_messages("inbox-id", 10, 0).unwrap();
    assert_eq!(listed.len(), 1);
    assert_eq!(listed[0].id, "m1");
    assert!(listed[0].is_read);

    let state = store.get_sync_state("inbox-id").unwrap().unwrap();
    assert_eq!(state.delta_link.as_deref(), Some("https://graph/delta-2"));
}

#[test]
fn throttled_request_is_retried_and_succeeds() {
    let mut script = Script::new(vec![
        Err(SourceError::Throttled { retry_after_secs: 0 }),
        Ok(page(vec![msg("m1", 300, false)], vec![], PageToken::Delta("https://graph/delta-1".into()))),
    ]);
    let mut store = MemoryMailStore::default();
    let report = sync_folder(&mut script, &mut store, &inbox()).unwrap();
    assert_eq!(report.upserted, 1);
    assert_eq!(script.requests.len(), 2);
    assert_eq!(script.requests[0], script.requests[1]);
}

#[test]
fn cursor_is_not_stored_when_a_round_fails_mid_walk() {
    let mut script = Script::new(vec![
        Ok(page(vec![msg("m1", 300, false)], vec![], PageToken::Next("https://graph/next-1".into()))),
        Err(SourceError::Http("boom".into())),
    ]);
    let mut store = MemoryMailStore::default();
    let err = sync_folder(&mut script, &mut store, &inbox()).unwrap_err();
    assert!(matches!(err, SyncError::Source(SourceError::Http(_))));
    assert!(store.get_sync_state("inbox-id").unwrap().is_none());
}

#[test]
fn throttle_waits_are_capped_and_bounded() {
    let t = SourceError::Throttled { retry_after_secs: 600 };
    assert_eq!(throttle_wait(0, &t), Some(60));
    assert_eq!(throttle_wait(0, &SourceError::Throttled { retry_after_secs: 7 }), Some(7));
    assert_eq!(throttle_wait(MAX_THROTTLE_RETRIES, &t), None);
    assert_eq!(throttle_wait(0, &SourceError::Unauthorized), None);
    assert_eq!(t.message(), "throttled by the server; retry after 600s");
    assert_eq!(SourceError::Protocol("x".into()).message(), "protocol error: x");
    assert_eq!(SourceError::Unauthorized.message(), "not signed in or token rejected");
}
