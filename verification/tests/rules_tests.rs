use serde_json::Value;
use spite_core::rules::{create_body, patch_body, sequence_patches, RuleDocument, RuleSlot};

#[test]
fn sequence_patches_renumber_contiguously_and_minimally() {
    let rule = |id: &str, seq: i32| RuleSlot { id: Some(id.into()), sequence: Some(seq) };
    let rules = vec![rule("a", 2), rule("b", 2), rule("c", 7)];
    let order = vec!["c".to_string(), "a".to_string(), "b".to_string()];
    let patches = sequence_patches(&rules, &order);
    assert_eq!(patches, vec![("c".to_string(), 1), ("b".to_string(), 3)]);
    let renumbered = vec![rule("c", 1), rule("a", 2), rule("b", 3)];
    assert!(sequence_patches(&renumbered, &order).is_empty());
}

#[test]
fn unknown_ids_and_missing_sequences() {
    let rules = vec![RuleSlot { id: Some("a".into()), sequence: None }, RuleSlot { id: None, sequence: Some(1) }];
    let order = vec!["zz".to_string(), "a".to_string()];
    assert_eq!(sequence_patches(&rules, &order), vec![("a".to_string(), 2)]);
}

fn parsed(text: String) -> Value {
    serde_json::from_str(&text).expect("body is JSON")
}

/// The writable part of a rule whose objects carry fields this client does
/// not know.
fn rule_with_unknowns() -> RuleDocument {
    RuleDocument {
        display_name: Some("From partner".into()),
        sequence: Some(3),
        is_enabled: Some(true),
        conditions: Some(
            r#"{"senderContains":["adele"],"futurePredicate":["x"],"withinSizeRange":{"minimumSize":10,"maximumSize":500,"futureSizeField":2}}"#
                .into(),
        ),
        exceptions: None,
        actions: Some(r#"{"moveToFolder":"folder-id","futureAction":{"sendTo":"hidden@evil.com"}}"#.into()),
    }
}

#[test]
fn patch_body_carries_whole_objects_and_excludes_server_fields() {
    let body = parsed(patch_body(&rule_with_unknowns()));
    assert_eq!(body["displayName"], "From partner");
    assert_eq!(body["sequence"], 3);
    assert_eq!(body["isEnabled"], true);
    assert_eq!(body["conditions"]["futurePredicate"][0], "x");
    assert_eq!(body["actions"]["futureAction"]["sendTo"], "hidden@evil.com");
    assert!(body.get("id").is_none());
    assert!(body.get("hasError").is_none());
    assert!(body.get("isReadOnly").is_none());
    assert!(body.get("futureRuleField").is_none());
    assert!(body["exceptions"].is_null());
}

#[test]
fn emptied_predicates_patch_as_null_but_are_omitted_on_create() {
    let rule = RuleDocument {
        display_name: Some("Bare".into()),
        sequence: None,
        is_enabled: Some(true),
        conditions: Some("{}".into()),
        exceptions: None,
        actions: Some(r#"{"markAsRead":true}"#.into()),
    };
    let patch = parsed(patch_body(&rule));
    assert!(patch["conditions"].is_null(), "PATCH must clear explicitly");
    let create = parsed(create_body(&rule));
    assert!(create.get("conditions").is_none(), "POST omits empties");
    assert_eq!(create["actions"]["markAsRead"], true);
}

#[test]
fn rule_bodies_are_exact_text() {
    let rule = RuleDocument {
        display_name: Some("Say \"hi\"".into()),
        sequence: Some(-2),
        is_enabled: Some(false),
        conditions: None,
        exceptions: Some(r#"{"sentToMe":true}"#.into()),
        actions: None,
    };
    assert_eq!(
        patch_body(&rule),
        r#"{"displayName":"Say \"hi\"","sequence":-2,"isEnabled":false,"conditions":null,"exceptions":{"sentToMe":true}}"#
    );
    assert_eq!(
        create_body(&rule),
        r#"{"displayName":"Say \"hi\"","sequence":-2,"isEnabled":false,"exceptions":{"sentToMe":true}}"#
    );
    let empty = RuleDocument {
        display_name: None,
        sequence: None,
        is_enabled: None,
        conditions: None,
        exceptions: None,
        actions: None,
    };
    assert_eq!(create_body(&empty), "{}");
    assert_eq!(patch_body(&empty), r#"{"conditions":null,"exceptions":null}"#);
}

#[test]
fn renumbering_puts_every_listed_rule_in_place() {
    let rule = |id: &str, seq: i32| RuleSlot { id: Some(id.into()), sequence: Some(seq) };
    let mut rules = vec![rule("a", 2), rule("b", 2), rule("c", 7), rule("d", 9)];
    let order = vec!["c".to_string(), "a".to_string(), "b".to_string()];
    for (id, seq) in sequence_patches(&rules, &order) {
        for r in rules.iter_mut() {
            if r.id.as_deref() == Some(id.as_str()) {
                r.sequence = Some(seq);
            }
        }
    }
    let seqs: Vec<Option<i32>> = rules.iter().map(|r| r.sequence).collect();
    assert_eq!(seqs, vec![Some(2), Some(3), Some(1), Some(9)]);
    assert!(sequence_patches(&rules, &order).is_empty());
}
