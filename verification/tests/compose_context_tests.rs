use spite_core::compose::{ComposeMode, Draft, EmailAddress, ReplyContext};
use spite_core::compose_context::{
    after_send, choose_reply_context, AfterSend, effective_mode, local_reply_context, parse_compose_mode, quotable_body,
    recipient_count, reply_fields, sent_recipients, signature_kind,
};
use spite_core::graph::FetchedBody;
use spite_core::ops::{batch_report, toast_subject};
use spite_core::store::MessageSummary;

fn addr(name: &str, address: &str) -> EmailAddress {
    EmailAddress { name: name.into(), address: address.into() }
}

fn ctx() -> ReplyContext {
    ReplyContext {
        internet_message_id: Some("<orig-123@mail.example>".into()),
        references: vec!["root-1@mail.example".into()],
        from: Some(addr("Alice", "alice@example.com")),
        reply_to: vec![],
        to: vec![addr("Me", "me@example.com"), addr("Bob", "bob@example.com")],
        cc: vec![addr("Carol", "carol@example.com")],
        subject: "Quarterly numbers".into(),
        received_at: 1_782_986_400,
    }
}

fn summary() -> MessageSummary {
    MessageSummary {
        id: "m1".into(),
        folder_id: "inbox".into(),
        subject: "Lunch?".into(),
        from_name: "Dana".into(),
        from_address: "dana@example.com".into(),
        received_at: 1_700_000_000,
        preview: "".into(),
        is_read: true,
        has_attachments: false,
        flag_status: "notFlagged".into(),
        inference_classification: "focused".into(),
        is_draft: false,
    }
}

#[test]
fn compose_modes_parse_by_name() {
    assert_eq!(parse_compose_mode("reply"), ComposeMode::Reply);
    assert_eq!(parse_compose_mode("replyAll"), ComposeMode::ReplyAll);
    assert_eq!(parse_compose_mode("forward"), ComposeMode::Forward);
    assert_eq!(parse_compose_mode("new"), ComposeMode::New);
    assert_eq!(parse_compose_mode("ReplyAll"), ComposeMode::New);
    assert_eq!(parse_compose_mode(""), ComposeMode::New);
}

#[test]
fn signature_kind_is_new_only_for_blank_messages() {
    assert_eq!(signature_kind(ComposeMode::New), "new");
    assert_eq!(signature_kind(ComposeMode::Reply), "reply");
    assert_eq!(signature_kind(ComposeMode::ReplyAll), "reply");
    assert_eq!(signature_kind(ComposeMode::Forward), "reply");
}

#[test]
fn degraded_reply_all_becomes_reply() {
    assert_eq!(effective_mode(ComposeMode::ReplyAll, true), ComposeMode::Reply);
    assert_eq!(effective_mode(ComposeMode::ReplyAll, false), ComposeMode::ReplyAll);
    assert_eq!(effective_mode(ComposeMode::Forward, true), ComposeMode::Forward);
}

#[test]
fn local_context_carries_sender_and_subject_only() {
    let c = local_reply_context(&summary());
    assert_eq!(c.internet_message_id, None);
    assert!(c.references.is_empty() && c.to.is_empty() && c.cc.is_empty() && c.reply_to.is_empty());
    assert_eq!(c.from, Some(addr("Dana", "dana@example.com")));
    assert_eq!(c.subject, "Lunch?");
    assert_eq!(c.received_at, 1_700_000_000);
}

#[test]
fn reply_context_prefers_the_fetched_one() {
    let s = summary();
    let (c, degraded) = choose_reply_context(Some(ctx()), Some(&s)).unwrap();
    assert!(!degraded);
    assert_eq!(c.subject, "Quarterly numbers");
    let (c, degraded) = choose_reply_context(None, Some(&s)).unwrap();
    assert!(degraded);
    assert_eq!(c.subject, "Lunch?");
    assert_eq!(choose_reply_context(None, None).unwrap_err(), "original message unavailable");
}

#[test]
fn reply_all_fields_thread_and_exclude_self() {
    let f = reply_fields(&ctx(), "me@example.com", ComposeMode::ReplyAll, false);
    assert_eq!(f.to, vec![addr("Alice", "alice@example.com"), addr("Bob", "bob@example.com")]);
    assert_eq!(f.cc, vec![addr("Carol", "carol@example.com")]);
    assert_eq!(f.subject, "Re: Quarterly numbers");
    assert_eq!(f.in_reply_to.as_deref(), Some("orig-123@mail.example"));
    assert_eq!(f.references, vec!["root-1@mail.example".to_string(), "orig-123@mail.example".to_string()]);
}

#[test]
fn degraded_reply_all_drops_cc() {
    let f = reply_fields(&ctx(), "me@example.com", ComposeMode::ReplyAll, true);
    assert_eq!(f.to, vec![addr("Alice", "alice@example.com")]);
    assert!(f.cc.is_empty());
}

#[test]
fn forwards_do_not_thread() {
    let f = reply_fields(&ctx(), "me@example.com", ComposeMode::Forward, false);
    assert!(f.to.is_empty() && f.cc.is_empty());
    assert_eq!(f.subject, "Fw: Quarterly numbers");
    assert_eq!(f.in_reply_to, None);
    assert!(f.references.is_empty());
}

#[test]
fn local_replies_have_no_threading_headers() {
    let local = local_reply_context(&summary());
    let f = reply_fields(&local, "me@example.com", ComposeMode::Reply, true);
    assert_eq!(f.to, vec![addr("Dana", "dana@example.com")]);
    assert_eq!(f.subject, "Re: Lunch?");
    assert_eq!(f.in_reply_to, None);
    assert!(f.references.is_empty());
}

#[test]
fn plain_text_bodies_quote_escaped_in_pre() {
    let b = FetchedBody { content: "a < b && c > \"d\"".into(), content_type: "text".into() };
    assert_eq!(quotable_body(&b), "<pre>a &lt; b &amp;&amp; c &gt; \"d\"</pre>");
}

#[test]
fn html_bodies_quote_sanitized() {
    let b = FetchedBody { content: "<p>hi</p><script>x()</script>".into(), content_type: "html".into() };
    let q = quotable_body(&b);
    assert!(q.contains("<p>hi</p>"));
    assert!(!q.contains("script"));
}

#[test]
fn sent_recipients_list_every_address_in_order() {
    let d = Draft {
        to: vec![addr("A", "a@x.com")],
        cc: vec![addr("B", "b@x.com")],
        bcc: vec![addr("C", "c@x.com")],
        subject: "s".into(),
        body: "b".into(),
        content_type: "text".into(),
        in_reply_to: None,
        references: vec![],
        attachments: vec![],
    };
    assert_eq!(
        sent_recipients(&d),
        vec![
            ("a@x.com".to_string(), "A".to_string()),
            ("b@x.com".to_string(), "B".to_string()),
            ("c@x.com".to_string(), "C".to_string()),
        ]
    );
    assert_eq!(recipient_count(&d), 3);
}

#[test]
fn toast_names_one_subject_or_a_count() {
    assert_eq!(toast_subject(1, "Lunch?"), "Lunch?");
    assert_eq!(toast_subject(3, "Lunch?"), "3 messages");
    assert_eq!(toast_subject(12, "x"), "12 messages");
}

#[test]
fn batch_report_counts_failures() {
    assert_eq!(batch_report(0, 5), None);
    assert_eq!(batch_report(2, 5).as_deref(), Some("2 of 5 couldn't be completed"));
}

fn draft() -> Draft {
    Draft {
        to: vec![addr("A", "a@x.com")],
        cc: vec![],
        bcc: vec![addr("C", "c@x.com")],
        subject: "s".into(),
        body: "b".into(),
        content_type: "text".into(),
        in_reply_to: None,
        references: vec![],
        attachments: vec![],
    }
}

#[test]
fn failed_send_reopens_the_same_draft() {
    match after_send(draft(), Err("network down".into())) {
        AfterSend::Reopen { draft: d, error } => {
            assert_eq!(error, "send failed: network down");
            assert_eq!(d.subject, "s");
            assert_eq!(d.to, vec![addr("A", "a@x.com")]);
            assert_eq!(d.bcc, vec![addr("C", "c@x.com")]);
        },
        AfterSend::Sent { .. } => panic!("a failed send must reopen the draft"),
    }
}

#[test]
fn successful_send_records_every_recipient() {
    match after_send(draft(), Ok(())) {
        AfterSend::Sent { recipients } => assert_eq!(
            recipients,
            vec![("a@x.com".to_string(), "A".to_string()), ("c@x.com".to_string(), "C".to_string())]
        ),
        AfterSend::Reopen { .. } => panic!("a sent draft does not reopen"),
    }
}
