use polyorama::plans::validate;

const COMPLETE: &str = "Status: complete\nDelivery: [PR #28](https://github.com/robchristie/polyorama/pull/28)\nLanded commit: `0123456789abcdef0123456789abcdef01234567`\n";

#[test]
fn accepts_explicit_lifecycle_states_and_historical_evidence() {
    validate("Status: active\nNext action: Run the representative probe.\n").unwrap();
    validate(&format!(
        "{COMPLETE}\n## Closeout\nThe earlier review was pending before PR #28 landed.\n\
         | Increment | Status |\n| --- | --- |\n| 1 | Landed |\n\
         | 2 | Complete for one exact native environment |\n"
    ))
    .unwrap();
}

#[test]
fn accepts_completed_candidate_before_its_merge_identity_exists() {
    validate("Status: complete\nDelivery: [PR #29](https://github.com/robchristie/polyorama/pull/29)\n").unwrap();
    for delivery in [
        "",
        "Delivery: PR pending",
        "Delivery: [PR](https://example.com/pull/29)",
        "Delivery: [PR](https://github.com/robchristie/polyorama/pull/pending)",
    ] {
        assert!(validate(&format!("Status: complete\n{delivery}\n")).is_err());
    }
}

#[test]
fn rejects_ambiguous_missing_and_duplicate_lifecycle_fields() {
    for source in [
        "Status: terminal candidate; completes when PR #26 lands\n",
        "Status: deliverable candidate verified; exact-head review and landing remain\n",
        "Status: complete\n",
        "Status: active\nNext action: none.\n",
        "Status: active\n",
        "Next action: Review.\n",
    ] {
        assert!(validate(source).is_err(), "accepted {source}");
    }
    assert!(validate(&format!("{COMPLETE}Status: complete\n")).is_err());
    assert!(validate(&COMPLETE.replace("01234567`", "short`")).is_err());
    assert!(validate(&format!("{COMPLETE}Landed commit: duplicate\n")).is_err());
    assert!(validate(&COMPLETE.replace("complete", "active")).is_err());
}

#[test]
fn rejects_obsolete_completed_plan_actions_and_delivery_rows() {
    for stale in [
        "## Current phase\nLanding remains.",
        "## Next action\nReview and land.",
        "Next action: none.",
        "- [ ] Reconcile final evidence",
        "* [ ] Reconcile final evidence",
        "| Increment | Status |\n| --- | --- |\n| 5 | In progress |",
        "| Increment | Status |\n| --- | --- |\n| 2 | Terminal candidate |",
    ] {
        assert!(validate(&format!("{COMPLETE}\n{stale}\n")).is_err(), "accepted {stale}");
    }
}

#[test]
fn errors_name_the_broken_rule() {
    assert_eq!(
        validate("Status: paused\n"),
        Err("unknown Status: \"paused\"; expected active or complete".to_string())
    );
    assert_eq!(
        validate("Next action: Review.\n"),
        Err("expected exactly one non-empty Status: field".to_string())
    );
    assert_eq!(
        validate("Status: active\nNext action: NONE\n"),
        Err("active plan requires an actionable Next action".to_string())
    );
    assert_eq!(
        validate(&format!("{COMPLETE}- [ ] Reconcile\n")),
        Err("complete plan retains active state: - [ ] Reconcile".to_string())
    );
    assert_eq!(
        validate("Status: complete\nDelivery: [PR](https://github.com/robchristie/polyorama/pull/07)\n"),
        Err("Delivery must link to the owning Polyorama pull request".to_string())
    );
}

#[test]
fn crlf_lines_and_padded_fields_are_read() {
    validate("Status:  active \r\nNext action: Probe\r\n").unwrap();
}
