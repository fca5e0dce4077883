use spite_core::settings::{is_offered_preset, AutomaticReplies, OFFERED_PRESETS};

#[test]
fn sanitized_strips_scripts_from_both_bodies() {
    let replies = AutomaticReplies {
        status: "AlwaysEnabled".into(),
        external_audience: "All".into(),
        internal_reply_message: "<p>Hi</p><script>alert(1)</script>".into(),
        external_reply_message: "<p>Out</p><img src=x onerror=alert(2)>".into(),
        ..Default::default()
    };
    let clean = replies.sanitized();
    assert!(!clean.internal_reply_message.contains("<script"));
    assert!(clean.internal_reply_message.contains("<p>Hi</p>"));
    assert!(!clean.external_reply_message.contains("onerror"));
    assert_eq!(clean.status, "AlwaysEnabled");
    assert_eq!(clean.external_audience, "All");
}

#[test]
fn only_curated_presets_are_offered() {
    for p in OFFERED_PRESETS {
        assert!(is_offered_preset(p), "{p} should be offered");
    }
    for p in ["preset0", "preset9", "preset15", "preset24", "None", ""] {
        assert!(!is_offered_preset(p), "{p} must not be offered");
    }
}

#[test]
fn category_colors_outside_the_palette_are_refused() {
    assert_eq!(spite_core::settings::check_category_color("preset20"), Ok(()));
    assert_eq!(
        spite_core::settings::check_category_color("preset0"),
        Err("unsupported category color: preset0".to_string())
    );
}

#[test]
fn offline_reads_fall_back_to_the_cache() {
    let f = spite_core::settings::fresh_or_cached::<u32>;
    assert_eq!(f(Ok(1), Some(2)), Ok(1));
    assert_eq!(f(Err("offline".into()), Some(2)), Ok(2));
    assert_eq!(f(Err("offline".into()), None), Err("offline".to_string()));
}
