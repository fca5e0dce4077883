use spite_core::graph::{
    backfill_cutoff_from, backfill_window, classify_response, delta_filter, delta_url, fetched_body,
    http_status_error, is_missing_alias, merge_folder_list, page_token, parse_u64, reply_context_from,
    split_delta, to_domain, well_known_folder, GraphBody, GraphEmailAddress, GraphFolder, GraphHeader,
    GraphMessage, GraphRecipient, GraphReplyContext, ResponseAction, WELL_KNOWN_FOLDERS,
};
use spite_core::store::Folder;
use spite_core::sync::{PageToken, SourceError};

fn item(id: &str) -> GraphMessage {
    GraphMessage {
        id: id.into(),
        removed: false,
        subject: None,
        from: None,
        received_date_time: None,
        body_preview: None,
        is_read: None,
        has_attachments: None,
        conversation_id: None,
        parent_folder_id: None,
    }
}

fn rcpt(name: Option<&str>, address: Option<&str>) -> GraphRecipient {
    GraphRecipient {
        email_address: Some(GraphEmailAddress { name: name.map(String::from), address: address.map(String::from) }),
    }
}

#[test]
fn epoch_round_trip_and_parse() {
    assert_eq!(delta_filter(1_782_986_400), "receivedDateTime ge 2026-07-02T10:00:00Z");
    let mut g = item("x");
    g.received_date_time = Some("2026-07-02T10:00:00Z".into());
    assert_eq!(to_domain(g).summary.received_at, 1_782_986_400);
    let mut g = item("y");
    g.received_date_time = Some("not a date".into());
    assert_eq!(to_domain(g).summary.received_at, 0);
}

#[test]
fn delta_items_split_into_upserts_and_removals() {
    let mut keep = item("keep");
    keep.subject = Some("hi".into());
    keep.is_read = Some(true);
    keep.received_date_time = Some("2026-07-02T10:00:00Z".into());
    keep.from = Some(rcpt(Some("A"), Some("a@x.com")));
    let mut gone = item("gone");
    gone.removed = true;
    let mut moved = item("moved");
    moved.removed = true;
    let (messages, removed) = split_delta(vec![keep, gone, moved]);
    assert_eq!(messages.len(), 1);
    assert_eq!(messages[0].summary.id, "keep");
    assert_eq!(messages[0].summary.from_address, "a@x.com");
    assert!(messages[0].summary.is_read);
    assert_eq!(removed, ["gone", "moved"]);
}

#[test]
fn null_from_maps_to_empty_sender() {
    let m = to_domain(item("draft"));
    assert_eq!(m.summary.from_name, "");
    assert_eq!(m.summary.from_address, "");
    assert_eq!(m.summary.subject, "");
    assert_eq!(m.summary.received_at, 0);
    assert!(m.body_html.is_none());
}

#[test]
fn page_tokens_and_bodies() {
    assert!(matches!(page_token(Some("n".into()), Some("d".into())), Ok(PageToken::Next(u)) if u == "n"));
    assert!(matches!(page_token(None, Some("d".into())), Ok(PageToken::Delta(u)) if u == "d"));
    assert!(matches!(page_token(None, None), Err(SourceError::Protocol(_))));

    let b = fetched_body(None, Some(GraphBody { content_type: Some("html".into()), content: Some("<p>x</p>".into()) }))
        .unwrap();
    assert_eq!((b.content.as_str(), b.content_type.as_str()), ("<p>x</p>", "html"));
    let b = fetched_body(Some(GraphBody { content_type: Some("HTML".into()), content: None }), None).unwrap();
    assert_eq!((b.content.as_str(), b.content_type.as_str()), ("", "text"));
    assert!(matches!(fetched_body(None, None), Err(SourceError::Protocol(m)) if m == "message has no body"));
}

#[test]
fn responses_are_classified_by_status() {
    assert!(matches!(classify_response(401, 0, None), ResponseAction::RefreshAndRetry));
    assert!(matches!(classify_response(401, 1, None), ResponseAction::Fail(SourceError::Unauthorized)));
    assert!(matches!(
        classify_response(429, 0, Some("12")),
        ResponseAction::Fail(SourceError::Throttled { retry_after_secs: 12 })
    ));
    assert!(matches!(
        classify_response(429, 0, Some("soon")),
        ResponseAction::Fail(SourceError::Throttled { retry_after_secs: 5 })
    ));
    assert!(matches!(
        classify_response(429, 0, None),
        ResponseAction::Fail(SourceError::Throttled { retry_after_secs: 5 })
    ));
    assert!(matches!(classify_response(404, 0, None), ResponseAction::ReadErrorBody(404)));
    assert!(matches!(classify_response(204, 0, None), ResponseAction::Accept));
    assert!(matches!(http_status_error(404, "gone"), SourceError::Http(m) if m == "404: gone"));
    assert_eq!(parse_u64("+42"), Some(42));
    assert_eq!(parse_u64("18446744073709551615"), Some(u64::MAX));
    assert_eq!(parse_u64("18446744073709551616"), None);
    assert_eq!(parse_u64(""), None);
    assert_eq!(parse_u64("+"), None);
    assert_eq!(parse_u64("-1"), None);
    assert_eq!(parse_u64("1 2"), None);
}

#[test]
fn folder_listing_merges_aliases_and_user_folders() {
    assert_eq!(WELL_KNOWN_FOLDERS[0], "inbox");
    let inbox = well_known_folder("inbox", GraphFolder { id: "i".into(), display_name: None, parent_folder_id: None });
    assert_eq!(inbox.display_name, "inbox");
    assert_eq!(inbox.well_known_name.as_deref(), Some("inbox"));
    assert!(is_missing_alias(&SourceError::Http("404: not found".into())));
    assert!(!is_missing_alias(&SourceError::Http("500: oops".into())));
    let merged: Vec<Folder> = merge_folder_list(
        vec![inbox],
        vec![
            GraphFolder { id: "i".into(), display_name: Some("Inbox".into()), parent_folder_id: None },
            GraphFolder { id: "p".into(), display_name: Some("Projects".into()), parent_folder_id: Some("root".into()) },
            GraphFolder { id: "p".into(), display_name: Some("Again".into()), parent_folder_id: None },
        ],
    );
    assert_eq!(merged.len(), 2);
    assert_eq!(merged[1].display_name, "Projects");
    assert_eq!(merged[1].parent_id.as_deref(), Some("root"));
    assert_eq!(delta_url("f1"), "https://graph.microsoft.com/v1.0/me/mailFolders/f1/messages/delta");
    assert_eq!(backfill_window(0), 1);
    assert_eq!(backfill_window(5000), 1000);
    assert_eq!(backfill_window(200), 200);
    let dates = vec![Some("2026-07-02T10:00:00Z".to_string()), None, Some("2026-07-01T10:00:00Z".to_string())];
    assert_eq!(backfill_cutoff_from(&dates, 99), 1_782_900_000);
    assert_eq!(backfill_cutoff_from(&vec![], 99), 99);
}

#[test]
fn reply_context_reads_headers_and_recipients() {
    let g = GraphReplyContext {
        internet_message_id: Some("<orig@x>".into()),
        internet_message_headers: Some(vec![
            GraphHeader { name: "Subject".into(), value: "x".into() },
            GraphHeader { name: "references".into(), value: "<a@x> <b@y>".into() },
        ]),
        from: Some(rcpt(Some("Alice"), Some("alice@x.com"))),
        reply_to: None,
        to_recipients: Some(vec![rcpt(None, Some("bob@x.com")), GraphRecipient { email_address: None }]),
        cc_recipients: None,
        subject: Some("Hi".into()),
        received_date_time: Some("2026-07-02T10:00:00Z".into()),
    };
    let c = reply_context_from(g);
    assert_eq!(c.references, ["a@x", "b@y"]);
    assert_eq!(c.from.as_ref().map(|e| e.address.as_str()), Some("alice@x.com"));
    assert_eq!(c.to.len(), 1);
    assert_eq!(c.to[0].name, "");
    assert!(c.reply_to.is_empty());
    assert_eq!(c.subject, "Hi");
    assert_eq!(c.received_at, 1_782_986_400);
}

#[test]
fn out_of_range_epochs_write_the_unix_epoch() {
    assert_eq!(spite_core::dates::epoch_to_rfc3339(0), "1970-01-01T00:00:00Z");
    assert_eq!(spite_core::dates::epoch_to_rfc3339(i64::MAX), "1970-01-01T00:00:00Z");
    assert_eq!(delta_filter(i64::MIN), "receivedDateTime ge 1970-01-01T00:00:00Z");
}
