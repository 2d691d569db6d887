use polyorama::fixtures::{
    check_text_coverage, fixture_verdict, unexpected_baselines, validate_evaluation_seed, validate_manifest,
    verification_failures,
    ComparisonFacts, EvaluationSeed, FixtureEntry, FixtureEvidence, FixtureVerdict, SeedTask,
};

fn fixture(id: &str) -> FixtureEntry {
    FixtureEntry {
        id: id.to_string(),
        width: 1280,
        height: 800,
        configuration_valid: true,
        data_fixture: "synthetic".to_string(),
        fonts: "bundled".to_string(),
        renderer: "software".to_string(),
    }
}

#[test]
fn well_formed_manifest_is_accepted() {
    assert_eq!(validate_manifest(1, &vec![fixture("workspace-default"), fixture("gallery-2")]), Ok(()));
}

#[test]
fn manifest_schema_and_emptiness_are_checked_first() {
    assert_eq!(
        validate_manifest(2, &vec![fixture("BAD")]),
        Err("unsupported UI fixture schema 2; expected 1".to_string())
    );
    assert_eq!(validate_manifest(1, &vec![]), Err("UI fixture manifest must not be empty".to_string()));
}

#[test]
fn fixture_ids_are_stable_and_unique() {
    assert_eq!(
        validate_manifest(1, &vec![fixture("Workspace")]),
        Err("invalid stable UI fixture id \"Workspace\"".to_string())
    );
    assert_eq!(validate_manifest(1, &vec![fixture("")]), Err("invalid stable UI fixture id \"\"".to_string()));
    assert_eq!(
        validate_manifest(1, &vec![fixture("a"), fixture("b"), fixture("a")]),
        Err("duplicate UI fixture id \"a\"".to_string())
    );
}

#[test]
fn fixture_viewport_configuration_and_fields_are_checked() {
    let mut narrow = fixture("narrow");
    narrow.width = 319;
    assert_eq!(validate_manifest(1, &vec![narrow]), Err("invalid viewport for UI fixture \"narrow\"".to_string()));
    let mut tall = fixture("tall");
    tall.height = 2161;
    assert_eq!(validate_manifest(1, &vec![tall]), Err("invalid viewport for UI fixture \"tall\"".to_string()));
    let mut largest = fixture("largest");
    largest.width = 3840;
    largest.height = 2160;
    assert_eq!(validate_manifest(1, &vec![largest]), Ok(()));
    let mut unconfigured = fixture("unconfigured");
    unconfigured.configuration_valid = false;
    assert_eq!(
        validate_manifest(1, &vec![unconfigured]),
        Err("invalid gallery configuration for UI fixture \"unconfigured\"".to_string())
    );
    let mut blank = fixture("blank");
    blank.fonts = " \t\n".to_string();
    assert_eq!(validate_manifest(1, &vec![blank]), Err("UI fixture \"blank\" has empty fonts".to_string()));
    let mut blank = fixture("blank");
    blank.data_fixture = String::new();
    blank.renderer = String::new();
    assert_eq!(
        validate_manifest(1, &vec![blank]),
        Err("UI fixture \"blank\" has empty data_fixture".to_string())
    );
}

fn task(id: &str) -> SeedTask {
    SeedTask {
        id: Some(id.to_string()),
        story: Some("workspace/default".to_string()),
        story_problem: None,
        assertion_counts: [Some(1), Some(2), Some(1), Some(3)],
    }
}

fn seed(tasks: Vec<SeedTask>) -> EvaluationSeed {
    EvaluationSeed {
        schema_version: Some(1),
        status: Some("frozen".to_string()),
        dimensions: Some(4),
        scale_minimum: Some(0),
        scale_maximum: Some(2),
        tasks: Some(tasks),
    }
}

fn five_tasks() -> Vec<SeedTask> {
    vec![task("t1"), task("t2"), task("t3"), task("t4"), task("t5")]
}

#[test]
fn frozen_seed_with_five_complete_tasks_is_accepted() {
    assert_eq!(validate_evaluation_seed(&seed(five_tasks())), Ok(()));
}

#[test]
fn seed_must_stay_frozen_with_its_four_dimensions() {
    let mut draft = seed(five_tasks());
    draft.status = Some("draft".to_string());
    assert_eq!(
        validate_evaluation_seed(&draft),
        Err("UI evaluation seed must use schema 1 and remain frozen".to_string())
    );
    let mut unscored = seed(five_tasks());
    unscored.dimensions = None;
    assert_eq!(
        validate_evaluation_seed(&unscored),
        Err("UI evaluation seed has no scoring dimensions".to_string())
    );
    let mut rescaled = seed(five_tasks());
    rescaled.scale_maximum = Some(5);
    assert_eq!(
        validate_evaluation_seed(&rescaled),
        Err("UI evaluation seed must retain its four measurable 0\u{2013}2 dimensions".to_string())
    );
    let mut few = seed(five_tasks());
    few.tasks = Some(vec![task("t1")]);
    assert_eq!(
        validate_evaluation_seed(&few),
        Err("UI evaluation seed must retain at least five frozen tasks".to_string())
    );
    let mut none = seed(five_tasks());
    none.tasks = None;
    assert_eq!(validate_evaluation_seed(&none), Err("UI evaluation seed has no tasks".to_string()));
}

#[test]
fn seed_tasks_are_checked_in_order() {
    let mut tasks = five_tasks();
    tasks[3].id = Some("t1".to_string());
    assert_eq!(
        validate_evaluation_seed(&seed(tasks)),
        Err("duplicate UI evaluation task id \"t1\"".to_string())
    );
    let mut tasks = five_tasks();
    tasks[1].id = None;
    assert_eq!(validate_evaluation_seed(&seed(tasks)), Err("UI evaluation task has no id".to_string()));
    let mut tasks = five_tasks();
    tasks[2].story = None;
    assert_eq!(
        validate_evaluation_seed(&seed(tasks)),
        Err("UI evaluation task \"t3\" has no story".to_string())
    );
    let mut tasks = five_tasks();
    tasks[2].story_problem = Some("unknown story".to_string());
    assert_eq!(
        validate_evaluation_seed(&seed(tasks)),
        Err("UI evaluation task \"t3\": unknown story".to_string())
    );
    let mut tasks = five_tasks();
    tasks[4].assertion_counts = [Some(1), Some(0), None, Some(1)];
    assert_eq!(
        validate_evaluation_seed(&seed(tasks)),
        Err("UI evaluation task \"t5\" has empty semantics assertions".to_string())
    );
    let mut tasks = five_tasks();
    tasks[4].assertion_counts = [Some(1), Some(1), None, Some(0)];
    assert_eq!(
        validate_evaluation_seed(&seed(tasks)),
        Err("UI evaluation task \"t5\" has no interaction assertions".to_string())
    );
}

fn facts() -> ComparisonFacts {
    ComparisonFacts {
        metadata_equal: true,
        semantic_equal: true,
        text_equal: true,
        semantic_findings: false,
        text_findings: false,
        dimensions_equal: true,
        differing_pixels: 0,
    }
}

#[test]
fn fixture_verdicts_follow_the_evidence() {
    assert_eq!(fixture_verdict(&FixtureEvidence::Compared(facts())), FixtureVerdict::Passed);
    let mut one_pixel = facts();
    one_pixel.differing_pixels = 1;
    assert_eq!(fixture_verdict(&FixtureEvidence::Compared(one_pixel)), FixtureVerdict::Differs);
    let mut findings = facts();
    findings.text_findings = true;
    assert_eq!(fixture_verdict(&FixtureEvidence::Compared(findings)), FixtureVerdict::Differs);
    let mut resized = facts();
    resized.dimensions_equal = false;
    assert_eq!(fixture_verdict(&FixtureEvidence::Compared(resized)), FixtureVerdict::Differs);
    assert_eq!(
        fixture_verdict(&FixtureEvidence::CaptureFailed),
        FixtureVerdict::Unavailable("capture_failed".to_string())
    );
    assert_eq!(
        fixture_verdict(&FixtureEvidence::BaselineIncomplete),
        FixtureVerdict::Unavailable("missing_checked_in_baseline".to_string())
    );
    assert_eq!(
        fixture_verdict(&FixtureEvidence::ComparisonFailed),
        FixtureVerdict::Unavailable("comparison_failed".to_string())
    );
}

#[test]
fn verification_failures_list_fixtures_then_baselines() {
    let ids = vec!["a".to_string(), "b".to_string(), "c".to_string()];
    let verdicts = vec![FixtureVerdict::Passed, FixtureVerdict::Differs, FixtureVerdict::Unavailable("capture_failed".to_string())];
    let unexpected = vec!["old".to_string()];
    assert_eq!(
        verification_failures(&ids, &verdicts, Some(&unexpected)),
        vec!["b".to_string(), "c".to_string(), "unexpected-baseline:old".to_string()]
    );
    assert_eq!(
        verification_failures(&ids, &verdicts, None),
        vec!["b".to_string(), "c".to_string(), "baseline-inventory".to_string()]
    );
    let passing = vec![FixtureVerdict::Passed, FixtureVerdict::Passed, FixtureVerdict::Passed];
    assert!(verification_failures(&ids, &passing, Some(&vec![])).is_empty());
}

#[test]
fn text_coverage_counts_distinct_components() {
    let ids = vec!["\"a\"".to_string(), "\"b\"".to_string(), "\"a\"".to_string()];
    assert_eq!(check_text_coverage(2, 3, 3, &ids), Ok(()));
    assert_eq!(
        check_text_coverage(3, 3, 3, &ids),
        Err("text coverage counts disagree with their denominator".to_string())
    );
    assert_eq!(
        check_text_coverage(2, 1, 2, &ids),
        Err("text coverage counts disagree with their denominator".to_string())
    );
    assert_eq!(check_text_coverage(0, 0, 0, &vec![]), Ok(()));
}

#[test]
fn empty_audit_requires_consistent_coverage_metadata() {
    assert_eq!(check_text_coverage(0, 0, 0, &vec![]), Ok(()));
    assert!(check_text_coverage(1, 0, 0, &vec![]).is_err());
    assert!(check_text_coverage(0, 0, 1, &vec![]).is_err());
}

#[test]
fn unexpected_baselines_are_listed_once_in_order() {
    let baselines = vec!["zeta".to_string(), "alpha".to_string(), "beta".to_string(), "zeta".to_string()];
    let fixtures = vec!["beta".to_string()];
    assert_eq!(unexpected_baselines(&baselines, &fixtures), vec!["alpha".to_string(), "zeta".to_string()]);
    assert!(unexpected_baselines(&vec![], &fixtures).is_empty());
}
