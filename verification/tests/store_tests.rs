use spite_core::memory_store::MemoryMailStore;
use spite_core::store::{search_statement, BROWSE_SQL_HEAD, MAIL_ONLY_GUARD, RANKED_SQL_HEAD};
use spite_core::store::{
    build_kql, filter_clause, fts_query, is_smtp_address, Folder, MailStore, MailStoreError, Message, MessageSummary,
    SearchFilters, SqlParam, SyncState,
};

fn folder(id: &str, name: &str) -> Folder {
    Folder { id: id.to_string(), display_name: name.to_string(), well_known_name: None, parent_id: None }
}

fn message(id: &str, folder_id: &str, received_at: i64, body: Option<&str>) -> Message {
    Message {
        summary: MessageSummary {
            id: id.to_string(),
            folder_id: folder_id.to_string(),
            subject: format!("subject {id}"),
            from_name: "Sender".to_string(),
            from_address: "sender@example.com".to_string(),
            received_at,
            preview: format!("preview {id}"),
            is_read: false,
            has_attachments: false,
            flag_status: "notFlagged".to_string(),
            inference_classification: "focused".to_string(),
            is_draft: false,
        },
        conversation_id: None,
        body_html: body.map(str::to_string),
        body_content_type: body.map(|_| "html".to_string()),
        internet_message_id: Some(format!("{id}@mail.example")),
        categories: Vec::new(),
    }
}

/// The shared store contract.
fn exercise(store: &mut dyn MailStore) {
    store.upsert_folders(&[folder("f1", "Inbox"), folder("f2", "Archive")]).unwrap();
    store.upsert_folders(&[folder("f1", "Inbox (renamed)")]).unwrap();
    let folders = store.list_folders().unwrap();
    assert_eq!(folders.len(), 2);
    assert_eq!(folders[0].display_name, "Inbox (renamed)");

    store
        .upsert_messages(&[
            message("m1", "f1", 100, Some("<p>old</p>")),
            message("m2", "f1", 300, None),
            message("m3", "f1", 200, None),
            message("m4", "f2", 999, None),
        ])
        .unwrap();
    let page = store.list_messages("f1", 2, 0).unwrap();
    assert_eq!(page.iter().map(|m| m.id.as_str()).collect::<Vec<_>>(), ["m2", "m3"]);
    let rest = store.list_messages("f1", 10, 2).unwrap();
    assert_eq!(rest.len(), 1);
    assert_eq!(rest[0].id, "m1");

    let m1 = store.get_message("m1").unwrap().unwrap();
    assert_eq!(m1.body_html.as_deref(), Some("<p>old</p>"));
    assert!(store.get_message("nope").unwrap().is_none());

    let mut updated = message("m1", "f1", 150, None);
    updated.summary.is_read = true;
    store.upsert_messages(&[updated]).unwrap();
    assert_eq!(store.list_messages("f1", 10, 0).unwrap().len(), 3);
    let m1 = store.get_message("m1").unwrap().unwrap();
    assert!(m1.summary.is_read);
    assert_eq!(m1.summary.received_at, 150);
    assert_eq!(m1.body_html.as_deref(), Some("<p>old</p>"), "summary-only upsert must not clear the body");

    store.set_message_body("m2", "<p>fetched</p>", "html").unwrap();
    store.upsert_messages(&[message("m2", "f1", 300, None)]).unwrap();
    let m2 = store.get_message("m2").unwrap().unwrap();
    assert_eq!(m2.body_html.as_deref(), Some("<p>fetched</p>"));
    assert_eq!(m2.body_content_type.as_deref(), Some("html"));

    let counts = store.unread_counts().unwrap();
    assert_eq!(counts, vec![("f1".to_string(), 2), ("f2".to_string(), 1)]);

    assert!(!store.get_sender_pref("a@example.com").unwrap());
    store.set_sender_pref("a@example.com", true).unwrap();
    assert!(store.get_sender_pref("a@example.com").unwrap());
    store.set_sender_pref("a@example.com", false).unwrap();
    assert!(!store.get_sender_pref("a@example.com").unwrap());

    store.record_recipients(&[("Colleague@Example.com".into(), "Colleague".into())], 100).unwrap();
    store.record_recipients(&[("colleague@example.com".into(), String::new())], 200).unwrap();
    let hits = store.search_recipients("colleague", 5).unwrap();
    assert_eq!(hits.len(), 1, "recording twice must not duplicate");
    assert_eq!(hits[0], ("colleague@example.com".into(), "Colleague".into()));
    let hits = store.search_recipients("sender", 5).unwrap();
    assert_eq!(hits[0].0, "sender@example.com");

    store
        .record_recipients(
            &[
                (
                    "/o=First Organization/ou=Exchange Administrative Group/cn=Recipients/cn=abc123".into(),
                    "Legacy Dn".into(),
                ),
                ("not-an-address".into(), "No At".into()),
            ],
            300,
        )
        .unwrap();
    assert!(store.search_recipients("Legacy", 5).unwrap().is_empty());
    assert!(store.search_recipients("No At", 5).unwrap().is_empty());
    let mut dn_msg = message("m-dn", "f1", 400, None);
    dn_msg.summary.from_address = "/o=Org/ou=X/cn=Recipients/cn=dnsender".into();
    dn_msg.summary.from_name = "Dn Sender".into();
    store.upsert_messages(&[dn_msg]).unwrap();
    assert!(store.search_recipients("Dn Sender", 5).unwrap().is_empty(), "message-derived DN sender must not surface");
    assert!(store.search_recipients("zzz-no-match", 5).unwrap().is_empty());

    assert!(store.get_signature("me@x.com", "new").unwrap().is_none());
    store.set_signature("me@x.com", "new", "\u{2014} Me").unwrap();
    store.set_signature("me@x.com", "reply", "\u{2014} Me (reply)").unwrap();
    store.set_signature("me@x.com", "new", "\u{2014} Me v2").unwrap();
    assert_eq!(store.get_signature("me@x.com", "new").unwrap().as_deref(), Some("\u{2014} Me v2"));
    assert_eq!(store.get_signature("me@x.com", "reply").unwrap().as_deref(), Some("\u{2014} Me (reply)"));
    assert!(store.get_signature("other@x.com", "new").unwrap().is_none());

    let id_a = store.save_search("Unread from Alice", "alice", r#"{"unread_only":true}"#).unwrap();
    store.save_search("Attachments", "", r#"{"has_attachments":true}"#).unwrap();
    let saved = store.list_saved_searches().unwrap();
    assert_eq!(saved.len(), 2);
    assert_eq!(saved[0].name, "Attachments");
    assert_eq!(saved[1].query, "alice");
    store.delete_saved_search(id_a).unwrap();
    assert_eq!(store.list_saved_searches().unwrap().len(), 1);

    assert!(store.message_exists("m1", None).unwrap());
    assert!(store.message_exists("some-other-graph-id", Some("m1@mail.example")).unwrap());
    assert!(!store.message_exists("nope", Some("nope@mail.example")).unwrap());

    let hits = store.search("subject m4", &SearchFilters::default(), 10).unwrap();
    assert!(hits.iter().any(|h| h.entity_id == "m4"));

    store.upsert_messages(&[message("gone", "f1", 50, None)]).unwrap();
    store.delete_message("gone").unwrap();
    assert!(store.get_message("gone").unwrap().is_none());
    store.delete_message("gone").unwrap();
    store.delete_message("never-existed").unwrap();

    assert!(store.get_sync_state("f1").unwrap().is_none());
    store
        .set_sync_state(&SyncState {
            folder_id: "f1".to_string(),
            delta_link: Some("https://graph/delta?token=1".to_string()),
            last_synced_at: Some(1_000),
        })
        .unwrap();
    store
        .set_sync_state(&SyncState {
            folder_id: "f1".to_string(),
            delta_link: Some("https://graph/delta?token=2".to_string()),
            last_synced_at: Some(2_000),
        })
        .unwrap();
    let state = store.get_sync_state("f1").unwrap().unwrap();
    assert_eq!(state.delta_link.as_deref(), Some("https://graph/delta?token=2"));
    assert_eq!(state.last_synced_at, Some(2_000));
}

#[test]
fn memory_store_contract() {
    exercise(&mut MemoryMailStore::default());
}

fn blank(id: &str, is_read: bool, flag: &str) -> Message {
    Message {
        summary: MessageSummary {
            id: id.into(),
            folder_id: "f1".into(),
            subject: String::new(),
            from_name: String::new(),
            from_address: String::new(),
            received_at: 0,
            preview: String::new(),
            is_read,
            has_attachments: false,
            flag_status: flag.into(),
            inference_classification: "focused".into(),
            is_draft: false,
        },
        conversation_id: None,
        body_html: None,
        body_content_type: None,
        internet_message_id: None,
        categories: vec![],
    }
}

fn partial_event_preserves_summary(store: &mut dyn MailStore) {
    store.upsert_folders(&[folder("f1", "Inbox")]).unwrap();
    let mut full = message("m1", "f1", 1000, Some("<p>body</p>"));
    full.summary.subject = "Real subject".into();
    full.summary.from_name = "Alice".into();
    full.summary.from_address = "alice@example.com".into();
    full.summary.preview = "hello there".into();
    full.summary.has_attachments = true;
    store.upsert_messages(&[full]).unwrap();

    store.upsert_messages(&[blank("m1", true, "flagged")]).unwrap();

    let m = store.get_message("m1").unwrap().unwrap();
    assert_eq!(m.summary.subject, "Real subject");
    assert_eq!(m.summary.from_address, "alice@example.com");
    assert_eq!(m.summary.preview, "hello there");
    assert_eq!(m.summary.received_at, 1000);
    assert!(m.summary.has_attachments);
    assert!(m.body_html.is_some(), "cached body preserved");
    assert!(m.summary.is_read);
    assert_eq!(m.summary.flag_status, "flagged");

    let mut updated = message("m1", "f1", 2000, None);
    updated.summary.subject = "Edited".into();
    updated.summary.from_address = "bob@example.com".into();
    store.upsert_messages(&[updated]).unwrap();
    let m = store.get_message("m1").unwrap().unwrap();
    assert_eq!(m.summary.subject, "Edited");
    assert_eq!(m.summary.from_address, "bob@example.com");

    store.upsert_messages(&[blank("blank", false, "notFlagged")]).unwrap();
    let broken = store.broken_summary_ids(10).unwrap();
    assert_eq!(broken, ["blank"]);
}

#[test]
fn partial_event_guard_memory() {
    partial_event_preserves_summary(&mut MemoryMailStore::default());
}

#[test]
fn smtp_address_validation() {
    for ok in ["user@example.com", "first.last@sub.example.co.uk", "UPPER@Example.COM"] {
        assert!(is_smtp_address(ok), "{ok} should be valid");
    }
    for bad in [
        "/o=First Organization/ou=Exchange Administrative Group/cn=Recipients/cn=abc",
        "no-at-sign",
        "@example.com",
        "user@",
        "user@localhost",
        "user@.com",
        "user@example.",
        "a@b@c.com",
        "",
    ] {
        assert!(!is_smtp_address(bad), "{bad} should be rejected");
    }
}

#[test]
fn fts_query_builder_neutralizes_operators() {
    assert_eq!(fts_query("hello world"), Some(r#""hello" "world"*"#.into()));
    assert_eq!(fts_query("  "), None);
    assert_eq!(fts_query("a:b"), Some(r#""a:b"*"#.into()));
    assert_eq!(fts_query(r#"say "hi""#), Some(r#""say" """hi"""*"#.into()));
    assert_eq!(fts_query("AND"), Some(r#""AND"*"#.into()));
}

#[test]
fn write_mutators_and_flagged_filter() {
    let mut store = MemoryMailStore::default();
    store.upsert_folders(&[folder("f1", "Inbox")]).unwrap();
    store.upsert_messages(&[message("m1", "f1", 1_000, None)]).unwrap();

    store.set_read_state("m1", true).unwrap();
    assert!(store.get_message("m1").unwrap().unwrap().summary.is_read);
    store.set_read_state("m1", false).unwrap();
    assert!(!store.get_message("m1").unwrap().unwrap().summary.is_read);

    store.set_flag_status("m1", "flagged").unwrap();
    let f = SearchFilters { flagged_only: true, ..Default::default() };
    let hits = store.search("", &f, 10).unwrap();
    assert!(hits.iter().any(|h| h.entity_id == "m1"));
    store.set_flag_status("m1", "notFlagged").unwrap();
    assert!(store.search("", &f, 10).unwrap().is_empty());

    store.set_categories("m1", &["Red".to_string(), "Work".to_string()]).unwrap();
    assert_eq!(store.get_message("m1").unwrap().unwrap().categories, vec!["Red".to_string(), "Work".to_string()]);

    store.set_inference("m1", "other").unwrap();
    assert_eq!(store.get_message("m1").unwrap().unwrap().summary.inference_classification, "other");

    store.upsert_folders(&[folder("archive", "Archive")]).unwrap();
    store.move_message("m1", "archive", Some("m1-moved")).unwrap();
    assert!(store.get_message("m1").unwrap().is_none());
    let moved = store.get_message("m1-moved").unwrap().unwrap();
    assert_eq!(moved.summary.folder_id, "archive");
    store.move_message("m1-moved", "f1", None).unwrap();
    assert_eq!(store.get_message("m1-moved").unwrap().unwrap().summary.folder_id, "f1");
}

#[test]
fn kql_builder_composes_query_and_filters() {
    let f = SearchFilters {
        from: Some("alice@example.com".into()),
        has_attachments: true,
        date_from: Some(1_751_328_000),
        ..Default::default()
    };
    let kql = build_kql(r#"quarterly "numbers""#, &f);
    assert_eq!(kql, "quarterly numbers from:alice@example.com hasAttachment:true received>=2025-07-01");
    assert_eq!(build_kql("", &SearchFilters::default()), "");
}

fn seeded() -> MemoryMailStore {
    let mut store = MemoryMailStore::default();
    store.upsert_folders(&[folder("f1", "Inbox"), folder("f2", "Archive")]).unwrap();
    let mut quarterly = message("m1", "f1", 1_000, Some("<p>revenue tables attached</p>"));
    quarterly.summary.subject = "Quarterly numbers".into();
    quarterly.summary.from_name = "Alice".into();
    quarterly.summary.from_address = "alice@example.com".into();
    let mut lunch = message("m2", "f1", 2_000, None);
    lunch.summary.subject = "Lunch tomorrow?".into();
    lunch.summary.from_name = "Bob".into();
    lunch.summary.from_address = "bob@example.com".into();
    lunch.summary.has_attachments = true;
    let mut old = message("m3", "f2", 500, None);
    old.summary.subject = "Archived quarterly plan".into();
    old.summary.is_read = true;
    store.upsert_messages(&[quarterly, lunch, old]).unwrap();
    store
}

#[test]
fn memory_search_filters_tokens_and_documents() {
    let mut store = seeded();
    // Tokens match case-insensitively across subject and body text, newest first.
    let hits = store.search("QUARTERLY", &SearchFilters::default(), 10).unwrap();
    let ids: Vec<_> = hits.iter().map(|h| h.entity_id.as_str()).collect();
    assert_eq!(ids, ["m1", "m3"]);
    let hits = store.search("revenue", &SearchFilters::default(), 10).unwrap();
    assert_eq!(hits.len(), 1);
    assert_eq!(hits[0].entity_type, "mail");
    // Folder scope and limits.
    let f = SearchFilters { folder_id: Some("f2".into()), ..Default::default() };
    let hits = store.search("quarterly", &f, 10).unwrap();
    assert_eq!(hits.len(), 1);
    assert_eq!(hits[0].entity_id, "m3");
    assert_eq!(store.search("quarterly", &SearchFilters::default(), 1).unwrap().len(), 1);
    // Filtered browse with an empty query.
    let f = SearchFilters { unread_only: true, ..Default::default() };
    let ids: Vec<_> = store.search("", &f, 10).unwrap().iter().map(|h| h.entity_id.clone()).collect();
    assert_eq!(ids, ["m2", "m1"]);
    let f = SearchFilters { from: Some("ALICE".into()), ..Default::default() };
    assert_eq!(store.search("", &f, 10).unwrap().len(), 1);
    let f = SearchFilters { date_from: Some(900), date_to: Some(1_500), ..Default::default() };
    assert_eq!(store.search("", &f, 10).unwrap()[0].entity_id, "m1");
    // Non-mail documents join plain queries, and re-indexing replaces.
    store.index_document("event", "ev-1", "Design review", "Room 4", "quarterly mockups", 3_000).unwrap();
    let hits = store.search("quarterly", &SearchFilters::default(), 10).unwrap();
    assert_eq!(hits[0].entity_type, "event");
    assert!(hits[0].summary.is_none());
    store.index_document("event", "ev-1", "Design review v2", "Room 4", "updated", 3_100).unwrap();
    let hits = store.search("design", &SearchFilters::default(), 10).unwrap();
    assert_eq!(hits.len(), 1);
    assert_eq!(hits[0].title, "Design review v2");
    // Filters exclude documents.
    let f = SearchFilters { unread_only: true, ..Default::default() };
    assert!(store.search("design", &f, 10).unwrap().is_empty());
}

#[test]
fn store_error_texts() {
    assert_eq!(MailStoreError::Db("locked".into()).message(), "database error: locked");
    assert_eq!(MailStoreError::Migration("v4".into()).message(), "migration error: v4");
    assert_eq!(MailStoreError::Io("eof".into()).message(), "io error: eof");
}

#[test]
fn filter_clause_binds_each_filter_in_order() {
    let (sql, params) = filter_clause(&SearchFilters::default());
    assert_eq!(sql, "");
    assert!(params.is_empty());

    let f = SearchFilters {
        folder_id: Some("inbox".into()),
        unread_only: true,
        has_attachments: false,
        from: Some("  adele ".into()),
        date_from: Some(100),
        date_to: Some(200),
        flagged_only: true,
    };
    let (sql, params) = filter_clause(&f);
    assert_eq!(
        sql,
        " AND m.folder_id = ? AND m.is_read = 0 AND m.flag_status = 'flagged' \
AND (m.from_address LIKE ? OR m.from_name LIKE ?) AND m.received_at >= ? AND m.received_at <= ?"
    );
    assert_eq!(
        params,
        vec![
            SqlParam::Text("inbox".into()),
            SqlParam::Text("%adele%".into()),
            SqlParam::Text("%adele%".into()),
            SqlParam::Integer(100),
            SqlParam::Integer(200),
        ]
    );

    // A blank sender filter constrains nothing.
    let blank = SearchFilters { from: Some("   ".into()), has_attachments: true, ..Default::default() };
    let (sql, params) = filter_clause(&blank);
    assert_eq!(sql, " AND m.has_attachments = 1");
    assert!(params.is_empty());
}

#[test]
fn broken_summaries_are_listed_up_to_the_limit() {
    let mut store = MemoryMailStore::default();
    store.upsert_folders(&[folder("f1", "Inbox")]).unwrap();
    store
        .upsert_messages(&[blank("b1", false, "notFlagged"), blank("b2", true, "flagged"), blank("b3", false, "notFlagged")])
        .unwrap();
    let mut all = store.broken_summary_ids(10).unwrap();
    all.sort();
    assert_eq!(all, ["b1", "b2", "b3"]);
    let two = store.broken_summary_ids(2).unwrap();
    assert_eq!(two.len(), 2);
    assert_ne!(two[0], two[1]);
    assert!(store.broken_summary_ids(0).unwrap().is_empty());
}

#[test]
fn search_statement_chooses_browse_or_ranked() {
    let f = SearchFilters { unread_only: true, ..Default::default() };
    let (sql, params) = search_statement(&f, None, 20, 1000);
    assert!(sql.starts_with(BROWSE_SQL_HEAD));
    assert!(sql.contains(" AND m.is_read = 0"));
    assert_eq!(params, vec![SqlParam::Integer(20)]);

    let (sql, params) = search_statement(&f, Some("\"hi\"*".into()), 5, 1000);
    assert!(sql.starts_with(RANKED_SQL_HEAD));
    assert!(sql.contains(MAIL_ONLY_GUARD));
    assert_eq!(params[0], SqlParam::Text("\"hi\"*".into()));
    assert_eq!(params[3], SqlParam::Integer(1000));
    assert_eq!(params.last(), Some(&SqlParam::Integer(5)));

    let (sql, _) = search_statement(&SearchFilters::default(), Some("x".into()), 5, 0);
    assert!(!sql.contains(MAIL_ONLY_GUARD));
}
