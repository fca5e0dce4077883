use base64::Engine;
use spite_core::compose::{
    build_mime, build_references, forward_subject, normalize_msgid, parse_references, quote_html,
    quote_text, reply_recipients, reply_subject, validate_attachments, ComposeError, ComposeMode, Draft,
    DraftAttachment, EmailAddress, ReplyContext, MAX_ATTACHMENT_TOTAL_BYTES,
};

fn b64(bytes: &[u8]) -> String {
    base64::engine::general_purpose::STANDARD.encode(bytes)
}

fn addr(name: &str, address: &str) -> EmailAddress {
    EmailAddress { name: name.into(), address: address.into() }
}

fn ctx() -> ReplyContext {
    ReplyContext {
        internet_message_id: Some("<orig-123@mail.example>".into()),
        references: vec!["root-1@mail.example".into(), "mid-2@mail.example".into()],
        from: Some(addr("Alice", "alice@example.com")),
        reply_to: vec![],
        to: vec![addr("Me", "me@example.com"), addr("Bob", "bob@example.com")],
        cc: vec![addr("Carol", "carol@example.com"), addr("Me", "ME@example.com")],
        subject: "Quarterly numbers".into(),
        received_at: 1_782_986_400,
    }
}

#[test]
fn subjects_prefix_exactly_once() {
    assert_eq!(reply_subject("Hello"), "Re: Hello");
    assert_eq!(reply_subject("Re: Hello"), "Re: Hello");
    assert_eq!(reply_subject("RE: Hello"), "RE: Hello");
    assert_eq!(reply_subject("  re: Hello"), "re: Hello");
    assert_eq!(reply_subject("Fw: Hello"), "Re: Fw: Hello");
    assert_eq!(forward_subject("Hello"), "Fw: Hello");
    assert_eq!(forward_subject("Fwd: Hello"), "Fwd: Hello");
    assert_eq!(forward_subject("FW: Hello"), "FW: Hello");
    assert_eq!(forward_subject("Re: Hello"), "Fw: Re: Hello");
}

#[test]
fn references_chain_extends_the_original() {
    let refs = build_references(
        &["root-1@mail.example".into(), "mid-2@mail.example".into()],
        "<orig-123@mail.example>",
    );
    assert_eq!(refs, ["root-1@mail.example", "mid-2@mail.example", "orig-123@mail.example"]);

    let refs = build_references(&[], "<orig-123@mail.example>");
    assert_eq!(refs, ["orig-123@mail.example"]);

    let refs = build_references(&["orig-123@mail.example".into()], "orig-123@mail.example");
    assert_eq!(refs, ["orig-123@mail.example"]);
}

#[test]
fn parse_references_handles_brackets_and_whitespace() {
    assert_eq!(parse_references("<a@x>  <b@y>\r\n\t<c@z>"), ["a@x", "b@y", "c@z"]);
}

#[test]
fn msgid_normalization_trims_and_unbrackets() {
    assert_eq!(normalize_msgid("  <id@host>  "), "id@host");
    assert_eq!(normalize_msgid("id@host"), "id@host");
    assert_eq!(normalize_msgid(""), "");
}

#[test]
fn reply_targets_reply_to_over_from() {
    let mut c = ctx();
    let (to, cc) = reply_recipients(&c, "me@example.com", ComposeMode::Reply);
    assert_eq!(to, vec![addr("Alice", "alice@example.com")]);
    assert!(cc.is_empty());

    c.reply_to = vec![addr("List", "list@example.com")];
    let (to, _) = reply_recipients(&c, "me@example.com", ComposeMode::Reply);
    assert_eq!(to, vec![addr("List", "list@example.com")]);
}

#[test]
fn reply_all_excludes_self_and_drops_nobody_else() {
    let (to, cc) = reply_recipients(&ctx(), "ME@EXAMPLE.COM", ComposeMode::ReplyAll);
    let to_addrs: Vec<_> = to.iter().map(|a| a.address.as_str()).collect();
    let cc_addrs: Vec<_> = cc.iter().map(|a| a.address.as_str()).collect();
    assert_eq!(to_addrs, ["alice@example.com", "bob@example.com"]);
    assert_eq!(cc_addrs, ["carol@example.com"]);
}

#[test]
fn reply_all_to_own_sent_mail_falls_back_to_original_recipients() {
    let c = ReplyContext {
        from: Some(addr("Me", "me@example.com")),
        to: vec![addr("Bob", "bob@example.com")],
        ..ctx()
    };
    let (to, _) = reply_recipients(&c, "me@example.com", ComposeMode::ReplyAll);
    assert_eq!(to, vec![addr("Bob", "bob@example.com")]);
}

#[test]
fn forward_and_new_start_empty() {
    let (to, cc) = reply_recipients(&ctx(), "me@example.com", ComposeMode::Forward);
    assert!(to.is_empty() && cc.is_empty());
    let (to, cc) = reply_recipients(&ctx(), "me@example.com", ComposeMode::New);
    assert!(to.is_empty() && cc.is_empty());
}

#[test]
fn quoted_html_is_sanitized_and_attributed() {
    let q = quote_html(
        r#"<p>hi</p><script>alert(1)</script><img src=x onerror=alert(1)>"#,
        "Eve <script>",
        "eve@example.com",
        1_782_986_400,
    );
    assert!(q.contains("<blockquote>"));
    assert!(q.contains("wrote:"));
    assert!(!q.to_lowercase().contains("<script"));
    assert!(!q.to_lowercase().contains("onerror"));
    assert!(q.contains("Eve &lt;script&gt;"));
}

#[test]
fn quoted_text_prefixes_lines() {
    let q = quote_text("line one\nline two", "Alice", "alice@example.com", 0);
    assert!(q.contains("> line one\n> line two\n"));
}

#[test]
fn mime_carries_threading_headers_and_parts() {
    let draft = Draft {
        to: vec![addr("Bob", "bob@example.com")],
        cc: vec![],
        bcc: vec![],
        subject: "Re: Quarterly numbers".into(),
        body: "<p>Looks right.</p>".into(),
        content_type: "html".into(),
        in_reply_to: Some("orig-123@mail.example".into()),
        references: vec!["root-1@mail.example".into(), "orig-123@mail.example".into()],
        attachments: vec![DraftAttachment {
            name: "notes.txt".into(),
            content_type: "text/plain".into(),
            content_base64: b64(b"hello attachment"),
        }],
    };
    let mime = build_mime(&draft, &addr("Me", "me@example.com")).unwrap();
    let text = String::from_utf8_lossy(&mime);
    assert!(text.contains("In-Reply-To: <orig-123@mail.example>"), "{text}");
    assert!(text.contains("References: <root-1@mail.example> <orig-123@mail.example>"), "{text}");
    assert!(
        text.contains("To: \"Bob\" <bob@example.com>") || text.contains("To: Bob <bob@example.com>"),
        "{text}"
    );
    assert!(text.contains("Subject: Re: Quarterly numbers"));
    assert!(text.contains("notes.txt"));
    assert!(text.contains("text/html"));
}

#[test]
fn attachment_cap_is_enforced_with_clear_error() {
    let oversized = DraftAttachment {
        name: "big.bin".into(),
        content_type: "application/octet-stream".into(),
        content_base64: b64(&vec![0u8; MAX_ATTACHMENT_TOTAL_BYTES + 1]),
    };
    let err = validate_attachments(std::slice::from_ref(&oversized)).unwrap_err();
    assert!(matches!(err, ComposeError::AttachmentsTooLarge { .. }));
    assert!(err.message().contains("later phase"));

    let ok = DraftAttachment {
        name: "small.bin".into(),
        content_type: "application/octet-stream".into(),
        content_base64: b64(&vec![0u8; 1024]),
    };
    assert!(validate_attachments(std::slice::from_ref(&ok)).is_ok());
}

#[test]
fn bad_base64_names_the_attachment() {
    let bad = DraftAttachment {
        name: "x.bin".into(),
        content_type: "application/octet-stream".into(),
        content_base64: "!!!not base64".into(),
    };
    let err = validate_attachments(std::slice::from_ref(&bad)).unwrap_err();
    assert!(matches!(&err, ComposeError::BadAttachment { name } if name == "x.bin"));
    assert_eq!(err.message(), "attachment \"x.bin\" is not valid base64");
}

#[test]
fn empty_recipients_are_rejected() {
    let draft = Draft {
        to: vec![],
        cc: vec![],
        bcc: vec![],
        subject: "x".into(),
        body: "y".into(),
        content_type: "text".into(),
        in_reply_to: None,
        references: vec![],
        attachments: vec![],
    };
    assert!(matches!(
        build_mime(&draft, &addr("Me", "me@example.com")),
        Err(ComposeError::NoRecipients)
    ));
}

#[test]
fn sendmail_body_is_standard_base64() {
    assert_eq!(spite_core::compose::sendmail_body(b"hello"), "aGVsbG8=");
    assert_eq!(spite_core::compose::sendmail_body(b""), "");
    let mime = b"From: a@x.com\r\nSubject: hi\r\n\r\nbody";
    let text = spite_core::compose::sendmail_body(mime);
    assert_eq!(text.len(), 4 * ((mime.len() + 2) / 3));
    assert_eq!(base64::engine::general_purpose::STANDARD.decode(text).unwrap(), mime.to_vec());
}

#[test]
fn mime_spec_carries_every_draft_field() {
    let draft = Draft {
        to: vec![addr("Bob", "bob@example.com")],
        cc: vec![],
        bcc: vec![addr("Eve", "eve@example.com")],
        subject: "Hi".into(),
        body: "plain words".into(),
        content_type: "text".into(),
        in_reply_to: Some("  <orig@x>  ".into()),
        references: vec!["<a@x>".into(), " b@x ".into()],
        attachments: vec![
            DraftAttachment { name: "a.txt".into(), content_type: "text/plain".into(), content_base64: String::new() },
            DraftAttachment { name: "b.bin".into(), content_type: "application/x".into(), content_base64: String::new() },
        ],
    };
    let s = spite_core::compose::mime_spec(&draft, &addr("Me", "me@example.com"), vec![b"one".to_vec(), b"two".to_vec()]);
    assert_eq!(s.from, ("Me".to_string(), "me@example.com".to_string()));
    assert_eq!(s.subject, "Hi");
    assert_eq!(s.to, Some(vec![("Bob".to_string(), "bob@example.com".to_string())]));
    assert_eq!(s.cc, None);
    assert_eq!(s.bcc, Some(vec![("Eve".to_string(), "eve@example.com".to_string())]));
    assert_eq!(s.in_reply_to.as_deref(), Some("orig@x"));
    assert_eq!(s.references, Some(vec!["a@x".to_string(), "b@x".to_string()]));
    assert_eq!(s.html_body, None);
    assert_eq!(s.text_body.as_deref(), Some("plain words"));
    assert_eq!(s.attachments.len(), 2);
    assert_eq!((s.attachments[1].name.as_str(), s.attachments[1].bytes.as_slice()), ("b.bin", &b"two"[..]));
    assert_eq!(s.attachments[0].content_type, "text/plain");

    let bare = Draft { in_reply_to: Some("<>".into()), references: vec![], content_type: "html".into(), ..draft };
    let s = spite_core::compose::mime_spec(&bare, &addr("Me", "me@example.com"), vec![]);
    assert_eq!(s.in_reply_to, None);
    assert_eq!(s.references, None);
    assert_eq!(s.html_body.as_deref(), Some("plain words"));
    assert!(s.attachments.is_empty());
}

#[test]
fn subjects_and_ids_settle_after_one_pass() {
    for s in ["  hello ", "Re: x", "RE:y", "fwd: z", "Fw: w"] {
        let r = reply_subject(s);
        assert_eq!(reply_subject(&r), r);
        let f = forward_subject(s);
        assert_eq!(forward_subject(&f), f);
    }
    assert_eq!(normalize_msgid(" \t<abc@x>\r\n"), "abc@x");
    assert_eq!(normalize_msgid("abc@x"), "abc@x");
    let ids = vec!["a@x".to_string(), "b.c@y".to_string()];
    let header = ids.iter().map(|i| format!("<{i}>")).collect::<Vec<_>>().join(" ");
    assert_eq!(parse_references(&header), ids);
    assert!(parse_references(" <a b>\t<>  c ").iter().all(|r| !r.is_empty() && !r.contains(char::is_whitespace)));
}

#[test]
fn sendmail_body_pads_partial_groups() {
    assert_eq!(spite_core::compose::sendmail_body(b"M"), "TQ==");
    assert_eq!(spite_core::compose::sendmail_body(b"Ma"), "TWE=");
    assert_eq!(spite_core::compose::sendmail_body(b"Man"), "TWFu");
    assert_eq!(spite_core::compose::sendmail_body(&[0xFF, 0xFE]), "//4=");
    assert_eq!(spite_core::compose::sendmail_body(&[0xFB, 0xEF, 0xBE]), "++++");
}
