//! The UI snapshot fixture manifest and the frozen UI evaluation seed (what
//! makes either acceptable, and the first problem of one that is not), the
//! coverage counts of captured text evidence, and the verdicts of snapshot
//! verification.
use vstd::prelude::*;

use crate::strings::{chars_of, debug_quoted, debug_text, decimal, decimal_chars, push_chars, push_str, str_equal, string_from_chars};
use crate::text_scan::{trim, trim_chars, TrimClass};

verus! {

/// The fixture manifest schema this tool reads.
pub const SCHEMA_VERSION: u32 = 1;

/// A character of a stable fixture id: a lowercase ASCII letter, a digit or
/// `-`.
pub open spec fn is_id_char(c: char) -> bool {
    ('a' <= c && c <= 'z') || ('0' <= c && c <= '9') || c == '-'
}

/// A stable fixture id: not empty, of id characters only.
pub open spec fn is_stable_id(id: Seq<char>) -> bool {
    id.len() > 0 && forall|k: int| 0 <= k < id.len() ==> is_id_char(#[trigger] id[k])
}

/// Text that is empty once its white space is trimmed.
pub open spec fn is_blank(text: Seq<char>) -> bool {
    trim(text, TrimClass::Space).len() == 0
}

/// One fixture of the manifest, as the checks read it. Whether its gallery
/// configuration is valid is decided by the gallery and handed in.
pub struct FixtureEntry {
    pub id: String,
    pub width: u32,
    pub height: u32,
    pub configuration_valid: bool,
    pub data_fixture: String,
    pub fonts: String,
    pub renderer: String,
}

pub struct FixtureView {
    pub id: Seq<char>,
    pub width: u32,
    pub height: u32,
    pub configuration_valid: bool,
    pub data_fixture: Seq<char>,
    pub fonts: Seq<char>,
    pub renderer: Seq<char>,
}

impl View for FixtureEntry {
    type V = FixtureView;

    open spec fn view(&self) -> FixtureView {
        FixtureView {
            id: self.id@,
            width: self.width,
            height: self.height,
            configuration_valid: self.configuration_valid,
            data_fixture: self.data_fixture@,
            fonts: self.fonts@,
            renderer: self.renderer@,
        }
    }
}

pub open spec fn fixture_views(fixtures: Seq<FixtureEntry>) -> Seq<FixtureView> {
    fixtures.map_values(|f: FixtureEntry| f@)
}

/// The first problem of the fixture at `k`, given the fixtures before it.
pub open spec fn fixture_problem(fixtures: Seq<FixtureView>, k: int) -> Option<Seq<char>> {
    let fixture = fixtures[k];
    let quoted = debug_text(fixture.id);
    if !is_stable_id(fixture.id) {
        Some("invalid stable UI fixture id "@ + quoted)
    } else if exists|j: int| 0 <= j < k && fixtures[j].id == fixture.id {
        Some("duplicate UI fixture id "@ + quoted)
    } else if !(320 <= fixture.width <= 3840) || !(240 <= fixture.height <= 2160) {
        Some("invalid viewport for UI fixture "@ + quoted)
    } else if !fixture.configuration_valid {
        Some("invalid gallery configuration for UI fixture "@ + quoted)
    } else if is_blank(fixture.data_fixture) {
        Some("UI fixture "@ + quoted + " has empty data_fixture"@)
    } else if is_blank(fixture.fonts) {
        Some("UI fixture "@ + quoted + " has empty fonts"@)
    } else if is_blank(fixture.renderer) {
        Some("UI fixture "@ + quoted + " has empty renderer"@)
    } else {
        None
    }
}

/// The first problem among the fixtures from `k` on.
pub open spec fn fixtures_problem_from(fixtures: Seq<FixtureView>, k: int) -> Option<Seq<char>>
    decreases fixtures.len() - k,
{
    if k < 0 || k >= fixtures.len() {
        None
    } else {
        match fixture_problem(fixtures, k) {
            Some(message) => Some(message),
            None => fixtures_problem_from(fixtures, k + 1),
        }
    }
}

/// The first problem of a manifest of schema `schema_version` with
/// `fixtures`, if it has one.
pub open spec fn manifest_problem(schema_version: u32, fixtures: Seq<FixtureView>) -> Option<Seq<char>> {
    if schema_version != SCHEMA_VERSION {
        Some(
            "unsupported UI fixture schema "@ + decimal(schema_version as nat) + "; expected "@
                + decimal(SCHEMA_VERSION as nat),
        )
    } else if fixtures.len() == 0 {
        Some("UI fixture manifest must not be empty"@)
    } else {
        fixtures_problem_from(fixtures, 0)
    }
}

/// `r` reports `problem`: nothing, or its message.
pub open spec fn reports(problem: Option<Seq<char>>, r: Option<String>) -> bool {
    match problem {
        None => r is None,
        Some(message) => r matches Some(m) && m@ == message,
    }
}

fn is_id_char_exec(c: char) -> (r: bool)
    ensures
        r == is_id_char(c),
{
    ('a' <= c && c <= 'z') || ('0' <= c && c <= '9') || c == '-'
}

fn is_stable_id_exec(id: &str) -> (r: bool)
    ensures
        r == is_stable_id(id@),
{
    let chars = chars_of(id);
    if chars.len() == 0 {
        return false;
    }
    let mut k: usize = 0;
    while k < chars.len()
        invariant
            chars@ == id@,
            0 <= k <= chars.len(),
            forall|j: int| 0 <= j < k ==> is_id_char(#[trigger] chars@[j]),
        decreases chars.len() - k,
    {
        if !is_id_char_exec(chars[k]) {
            return false;
        }
        k = k + 1;
    }
    true
}

fn is_blank_exec(text: &str) -> (r: bool)
    ensures
        r == is_blank(text@),
{
    let chars = chars_of(text);
    let trimmed = trim_chars(&chars, TrimClass::Space);
    trimmed.len() == 0
}

/// `prefix`, the quoted id, then `suffix`.
fn fixture_message(prefix: &str, quoted: &String, suffix: &str) -> (r: String)
    ensures
        r@ == prefix@ + quoted@ + suffix@,
{
    let mut text = chars_of(prefix);
    let quoted_chars = chars_of(quoted.as_str());
    push_chars(&mut text, &quoted_chars);
    push_str(&mut text, suffix);
    string_from_chars(&text)
}

/// Whether a fixture before `k` has the id of the fixture at `k`.
fn used_before(fixtures: &Vec<FixtureEntry>, k: usize) -> (r: bool)
    requires
        k < fixtures.len(),
    ensures
        r == exists|j: int| 0 <= j < k && fixture_views(fixtures@)[j].id == fixture_views(fixtures@)[k as int].id,
{
    let ghost views = fixture_views(fixtures@);
    let mut j: usize = 0;
    while j < k
        invariant
            k < fixtures.len(),
            views == fixture_views(fixtures@),
            0 <= j <= k,
            forall|i: int| 0 <= i < j ==> views[i].id != views[k as int].id,
        decreases k - j,
    {
        if str_equal(fixtures[j].id.as_str(), fixtures[k].id.as_str()) {
            assert(views[j as int].id == views[k as int].id);
            return true;
        }
        j = j + 1;
    }
    false
}

/// The first problem of the fixture at `k`.
fn check_fixture(fixtures: &Vec<FixtureEntry>, k: usize) -> (r: Option<String>)
    requires
        k < fixtures.len(),
    ensures
        reports(fixture_problem(fixture_views(fixtures@), k as int), r),
{
    let ghost views = fixture_views(fixtures@);
    let fixture = &fixtures[k];
    let quoted = debug_quoted(fixture.id.as_str());
    proof {
        reveal_strlit("");
        assert(views[k as int] == fixture@);
    }
    if !is_stable_id_exec(fixture.id.as_str()) {
        let r = fixture_message("invalid stable UI fixture id ", &quoted, "");
        proof {
            assert(r@ =~= "invalid stable UI fixture id "@ + quoted@);
        }
        return Some(r);
    }
    if used_before(fixtures, k) {
        let r = fixture_message("duplicate UI fixture id ", &quoted, "");
        proof {
            assert(r@ =~= "duplicate UI fixture id "@ + quoted@);
        }
        return Some(r);
    }
    if !(320 <= fixture.width && fixture.width <= 3840) || !(240 <= fixture.height && fixture.height <= 2160) {
        let r = fixture_message("invalid viewport for UI fixture ", &quoted, "");
        proof {
            assert(r@ =~= "invalid viewport for UI fixture "@ + quoted@);
        }
        return Some(r);
    }
    if !fixture.configuration_valid {
        let r = fixture_message("invalid gallery configuration for UI fixture ", &quoted, "");
        proof {
            assert(r@ =~= "invalid gallery configuration for UI fixture "@ + quoted@);
        }
        return Some(r);
    }
    if is_blank_exec(fixture.data_fixture.as_str()) {
        return Some(fixture_message("UI fixture ", &quoted, " has empty data_fixture"));
    }
    if is_blank_exec(fixture.fonts.as_str()) {
        return Some(fixture_message("UI fixture ", &quoted, " has empty fonts"));
    }
    if is_blank_exec(fixture.renderer.as_str()) {
        return Some(fixture_message("UI fixture ", &quoted, " has empty renderer"));
    }
    None
}

/// Checks a fixture manifest of schema `schema_version`: the schema this
/// tool reads, at least one fixture, and for each fixture in order a stable
/// id not used before, a viewport from 320 x 240 up to 3840 x 2160, a valid
/// gallery configuration, and data fixture, fonts and renderer that are not
/// blank. The error is the first problem found.
pub fn validate_manifest(schema_version: u32, fixtures: &Vec<FixtureEntry>) -> (r: Result<(), String>)
    ensures
        match manifest_problem(schema_version, fixture_views(fixtures@)) {
            None => r is Ok,
            Some(message) => r matches Err(e) && e@ == message,
        },
{
    let ghost views = fixture_views(fixtures@);
    if schema_version != SCHEMA_VERSION {
        let mut text = chars_of("unsupported UI fixture schema ");
        let version = decimal_chars(schema_version as u64);
        push_chars(&mut text, &version);
        push_str(&mut text, "; expected ");
        let expected = decimal_chars(SCHEMA_VERSION as u64);
        push_chars(&mut text, &expected);
        return Err(string_from_chars(&text));
    }
    if fixtures.len() == 0 {
        return Err(crate::strings::owned("UI fixture manifest must not be empty"));
    }
    let mut k: usize = 0;
    while k < fixtures.len()
        invariant
            views == fixture_views(fixtures@),
            schema_version == SCHEMA_VERSION,
            fixtures.len() > 0,
            0 <= k <= fixtures.len(),
            fixtures_problem_from(views, 0) == fixtures_problem_from(views, k as int),
        decreases fixtures.len() - k,
    {
        if let Some(message) = check_fixture(fixtures, k) {
            return Err(message);
        }
        k = k + 1;
    }
    Ok(())
}

/// The four scored dimensions of an evaluation task, in the order they are
/// checked.
pub open spec fn dimension_name(d: int) -> Seq<char> {
    if d == 0 {
        "visual_text"@
    } else if d == 1 {
        "semantics"@
    } else if d == 2 {
        "interaction"@
    } else {
        "evidence"@
    }
}

/// One task of the evaluation seed, as the checks read it: its id and story
/// where they are text, the problem the gallery finds with the story id, if
/// any, and for each scored dimension the number of its assertions where they
/// form a list.
pub struct SeedTask {
    pub id: Option<String>,
    pub story: Option<String>,
    pub story_problem: Option<String>,
    pub assertion_counts: [Option<usize>; 4],
}

pub struct SeedTaskView {
    pub id: Option<Seq<char>>,
    pub story: Option<Seq<char>>,
    pub story_problem: Option<Seq<char>>,
    pub assertion_counts: Seq<Option<usize>>,
}

pub open spec fn text_view(text: Option<String>) -> Option<Seq<char>> {
    match text {
        Some(t) => Some(t@),
        None => None,
    }
}

impl View for SeedTask {
    type V = SeedTaskView;

    open spec fn view(&self) -> SeedTaskView {
        SeedTaskView {
            id: text_view(self.id),
            story: text_view(self.story),
            story_problem: text_view(self.story_problem),
            assertion_counts: self.assertion_counts@,
        }
    }
}

/// The evaluation seed, as the checks read it: each field where it has the
/// expected JSON kind, the number of scoring dimensions where they form a
/// list, and the tasks where they form a list.
pub struct EvaluationSeed {
    pub schema_version: Option<u64>,
    pub status: Option<String>,
    pub dimensions: Option<usize>,
    pub scale_minimum: Option<i64>,
    pub scale_maximum: Option<i64>,
    pub tasks: Option<Vec<SeedTask>>,
}

pub open spec fn task_views(tasks: Seq<SeedTask>) -> Seq<SeedTaskView> {
    tasks.map_values(|t: SeedTask| t@)
}

/// The first dimension from `d` on whose assertions are missing or empty.
pub open spec fn assertions_problem(quoted: Seq<char>, counts: Seq<Option<usize>>, d: int) -> Option<Seq<char>>
    decreases 4 - d,
{
    if d < 0 || d >= 4 {
        None
    } else {
        match counts[d] {
            None => Some("UI evaluation task "@ + quoted + " has no "@ + dimension_name(d) + " assertions"@),
            Some(n) => if n == 0 {
                Some("UI evaluation task "@ + quoted + " has empty "@ + dimension_name(d) + " assertions"@)
            } else {
                assertions_problem(quoted, counts, d + 1)
            },
        }
    }
}

/// The first problem of the task at `k`, given the tasks before it.
pub open spec fn task_problem(tasks: Seq<SeedTaskView>, k: int) -> Option<Seq<char>> {
    let task = tasks[k];
    match task.id {
        None => Some("UI evaluation task has no id"@),
        Some(id) => {
            let quoted = debug_text(id);
            if exists|j: int| 0 <= j < k && tasks[j].id == Some(id) {
                Some("duplicate UI evaluation task id "@ + quoted)
            } else if task.story is None {
                Some("UI evaluation task "@ + quoted + " has no story"@)
            } else {
                match task.story_problem {
                    Some(problem) => Some("UI evaluation task "@ + quoted + ": "@ + problem),
                    None => assertions_problem(quoted, task.assertion_counts, 0),
                }
            }
        },
    }
}

/// The first problem among the tasks from `k` on.
pub open spec fn tasks_problem_from(tasks: Seq<SeedTaskView>, k: int) -> Option<Seq<char>>
    decreases tasks.len() - k,
{
    if k < 0 || k >= tasks.len() {
        None
    } else {
        match task_problem(tasks, k) {
            Some(message) => Some(message),
            None => tasks_problem_from(tasks, k + 1),
        }
    }
}

/// The first problem of the evaluation seed, if it has one.
pub open spec fn seed_problem(seed: EvaluationSeed) -> Option<Seq<char>> {
    if seed.schema_version != Some(1u64) || text_view(seed.status) != Some("frozen"@) {
        Some("UI evaluation seed must use schema 1 and remain frozen"@)
    } else {
        match seed.dimensions {
            None => Some("UI evaluation seed has no scoring dimensions"@),
            Some(count) => if count != 4 || seed.scale_minimum != Some(0i64) || seed.scale_maximum != Some(2i64) {
                Some("UI evaluation seed must retain its four measurable 0\u{2013}2 dimensions"@)
            } else {
                match seed.tasks {
                    None => Some("UI evaluation seed has no tasks"@),
                    Some(tasks) => if tasks.len() < 5 {
                        Some("UI evaluation seed must retain at least five frozen tasks"@)
                    } else {
                        tasks_problem_from(task_views(tasks@), 0)
                    },
                }
            },
        }
    }
}

fn dimension_text(d: usize) -> (r: &'static str)
    requires
        d < 4,
    ensures
        r@ == dimension_name(d as int),
{
    if d == 0 {
        "visual_text"
    } else if d == 1 {
        "semantics"
    } else if d == 2 {
        "interaction"
    } else {
        "evidence"
    }
}

/// The first dimension whose assertions are missing or empty.
fn check_assertions(quoted: &String, counts: &[Option<usize>; 4]) -> (r: Option<String>)
    ensures
        reports(assertions_problem(quoted@, counts@, 0), r),
{
    let mut d: usize = 0;
    while d < 4
        invariant
            0 <= d <= 4,
            assertions_problem(quoted@, counts@, 0) == assertions_problem(quoted@, counts@, d as int),
        decreases 4 - d,
    {
        let missing = counts[d].is_none();
        let empty = match counts[d] {
            Some(n) => n == 0,
            None => false,
        };
        if missing || empty {
            let mut text = chars_of("UI evaluation task ");
            let quoted_chars = chars_of(quoted.as_str());
            push_chars(&mut text, &quoted_chars);
            if missing {
                push_str(&mut text, " has no ");
            } else {
                push_str(&mut text, " has empty ");
            }
            push_str(&mut text, dimension_text(d));
            push_str(&mut text, " assertions");
            return Some(string_from_chars(&text));
        }
        d = d + 1;
    }
    None
}

/// Whether a task before `k` has the id `id`.
fn task_id_used_before(tasks: &Vec<SeedTask>, k: usize, id: &String) -> (r: bool)
    requires
        k <= tasks.len(),
    ensures
        r == exists|j: int| 0 <= j < k && task_views(tasks@)[j].id == Some(id@),
{
    let ghost views = task_views(tasks@);
    let mut j: usize = 0;
    while j < k
        invariant
            k <= tasks.len(),
            views == task_views(tasks@),
            0 <= j <= k,
            forall|i: int| 0 <= i < j ==> views[i].id != Some(id@),
        decreases k - j,
    {
        if let Some(other) = &tasks[j].id {
            if str_equal(other.as_str(), id.as_str()) {
                assert(views[j as int].id == Some(id@));
                return true;
            }
        }
        j = j + 1;
    }
    false
}

/// The first problem of the task at `k`.
fn check_task(tasks: &Vec<SeedTask>, k: usize) -> (r: Option<String>)
    requires
        k < tasks.len(),
    ensures
        reports(task_problem(task_views(tasks@), k as int), r),
{
    let ghost views = task_views(tasks@);
    let task = &tasks[k];
    assert(views[k as int] == task@);
    let id = match &task.id {
        None => {
            return Some(crate::strings::owned("UI evaluation task has no id"));
        },
        Some(id) => id,
    };
    let quoted = debug_quoted(id.as_str());
    if task_id_used_before(tasks, k, id) {
        let mut text = chars_of("duplicate UI evaluation task id ");
        let quoted_chars = chars_of(quoted.as_str());
        push_chars(&mut text, &quoted_chars);
        return Some(string_from_chars(&text));
    }
    if task.story.is_none() {
        let mut text = chars_of("UI evaluation task ");
        let quoted_chars = chars_of(quoted.as_str());
        push_chars(&mut text, &quoted_chars);
        push_str(&mut text, " has no story");
        return Some(string_from_chars(&text));
    }
    if let Some(problem) = &task.story_problem {
        let mut text = chars_of("UI evaluation task ");
        let quoted_chars = chars_of(quoted.as_str());
        push_chars(&mut text, &quoted_chars);
        push_str(&mut text, ": ");
        push_str(&mut text, problem.as_str());
        return Some(string_from_chars(&text));
    }
    check_assertions(&quoted, &task.assertion_counts)
}

/// Checks the frozen UI evaluation seed: schema 1 and status `frozen`; four
/// scoring dimensions on a scale from 0 to 2; at least five tasks; and for
/// each task in order an id not used before, a story that the gallery
/// accepts, and assertions for each of the four dimensions. The error is the
/// first problem found.
pub fn validate_evaluation_seed(seed: &EvaluationSeed) -> (r: Result<(), String>)
    ensures
        match seed_problem(*seed) {
            None => r is Ok,
            Some(message) => r matches Err(e) && e@ == message,
        },
{
    let frozen = match &seed.status {
        Some(status) => str_equal(status.as_str(), "frozen"),
        None => false,
    };
    if seed.schema_version != Some(1u64) || !frozen {
        return Err(crate::strings::owned("UI evaluation seed must use schema 1 and remain frozen"));
    }
    let count = match seed.dimensions {
        None => {
            return Err(crate::strings::owned("UI evaluation seed has no scoring dimensions"));
        },
        Some(count) => count,
    };
    if count != 4 || seed.scale_minimum != Some(0i64) || seed.scale_maximum != Some(2i64) {
        return Err(crate::strings::owned("UI evaluation seed must retain its four measurable 0\u{2013}2 dimensions"));
    }
    let tasks = match &seed.tasks {
        None => {
            return Err(crate::strings::owned("UI evaluation seed has no tasks"));
        },
        Some(tasks) => tasks,
    };
    if tasks.len() < 5 {
        return Err(crate::strings::owned("UI evaluation seed must retain at least five frozen tasks"));
    }
    let ghost views = task_views(tasks@);
    let mut k: usize = 0;
    while k < tasks.len()
        invariant
            views == task_views(tasks@),
            0 <= k <= tasks.len(),
            seed_problem(*seed) == tasks_problem_from(views, k as int),
        decreases tasks.len() - k,
    {
        if let Some(message) = check_task(tasks, k) {
            return Err(message);
        }
        k = k + 1;
    }
    Ok(())
}

/// Checks the coverage counts of captured text evidence: the measured
/// components are the distinct component ids of its observations, and no
/// more native controls were observed than recorded.
pub fn check_text_coverage(
    measured_components: usize,
    native_text_controls: usize,
    observed_native_controls: usize,
    component_ids: &Vec<String>,
) -> (r: Result<(), String>)
    ensures
        r is Ok <==> measured_components == crate::text_order::string_views(component_ids@).to_set().len()
            && observed_native_controls <= native_text_controls,
        r matches Err(e) ==> e@ == "text coverage counts disagree with their denominator"@,
{
    let ghost ids = crate::text_order::string_views(component_ids@);
    let mut distinct: Vec<String> = Vec::new();
    let mut i: usize = 0;
    while i < component_ids.len()
        invariant
            ids == crate::text_order::string_views(component_ids@),
            0 <= i <= component_ids.len(),
            distinct.len() <= i,
            crate::text_order::string_views(distinct@).no_duplicates(),
            crate::text_order::string_views(distinct@).to_set() == ids.take(i as int).to_set(),
        decreases component_ids.len() - i,
    {
        let ghost before = crate::text_order::string_views(distinct@);
        let mut seen = false;
        let mut j: usize = 0;
        while j < distinct.len()
            invariant
                before == crate::text_order::string_views(distinct@),
                i < component_ids.len(),
                0 <= j <= distinct.len(),
                seen == exists|k: int| 0 <= k < j && before[k] == component_ids@[i as int]@,
            decreases distinct.len() - j,
        {
            assert(before[j as int] == distinct@[j as int]@);
            if str_equal(distinct[j].as_str(), component_ids[i].as_str()) {
                seen = true;
            }
            j = j + 1;
        }
        if !seen {
            distinct.push(component_ids[i].clone());
        }
        proof {
            let now = crate::text_order::string_views(distinct@);
            let x = ids[i as int];
            assert(x == component_ids@[i as int]@);
            assert(ids.take(i + 1) =~= ids.take(i as int).push(x));
            ids.take(i as int).lemma_push_to_set_commute(x);
            if seen {
                let k = choose|k: int| 0 <= k < distinct.len() && before[k] == x;
                assert(before.contains(x));
                assert(before.to_set().contains(x));
                assert(now =~= before);
                assert(before.to_set().insert(x) =~= before.to_set());
            } else {
                assert(now =~= before.push(x));
                before.lemma_push_to_set_commute(x);
                assert forall|p: int, q: int| 0 <= p < q < now.len() implies now[p] != now[q] by {
                    if q == now.len() - 1 {
                        if now[p] == now[q] {
                            assert(before[p] == x);
                        }
                    }
                }
            }
        }
        i = i + 1;
    }
    proof {
        let unique = crate::text_order::string_views(distinct@);
        assert(ids.take(component_ids.len() as int) =~= ids);
        unique.unique_seq_to_set();
    }
    if measured_components != distinct.len() || observed_native_controls > native_text_controls {
        return Err(crate::strings::owned("text coverage counts disagree with their denominator"));
    }
    Ok(())
}

/// What verification learned of one fixture's captured evidence, beside
/// the checked-in evidence.
pub struct ComparisonFacts {
    pub metadata_equal: bool,
    pub semantic_equal: bool,
    pub text_equal: bool,
    pub semantic_findings: bool,
    pub text_findings: bool,
    pub dimensions_equal: bool,
    pub differing_pixels: u64,
}

/// How far verifying one fixture got.
pub enum FixtureEvidence {
    CaptureFailed,
    BaselineIncomplete,
    ComparisonFailed,
    Compared(ComparisonFacts),
}

/// What verification makes of one fixture: it passes, its evidence differs
/// from the checked-in evidence (a failure bundle compares them), or no
/// comparison could be made, for the reason given.
#[derive(Debug, PartialEq, Eq)]
pub enum FixtureVerdict {
    Passed,
    Differs,
    Unavailable(String),
}

/// The captured evidence differs from the checked-in evidence: any of the
/// metadata, semantics or text differ, an audit has findings, or the images
/// differ in size or in any pixel.
pub open spec fn differs(facts: ComparisonFacts) -> bool {
    !facts.metadata_equal || !facts.semantic_equal || !facts.text_equal || facts.semantic_findings
        || facts.text_findings || !facts.dimensions_equal || facts.differing_pixels != 0
}

/// A compared fixture passes exactly when its metadata, semantics and text
/// equal the checked-in evidence, neither audit has findings, and the images
/// agree in size and in every pixel; any one difference alone makes it
/// differ, whatever the other facts.
pub proof fn lemma_any_difference_differs(facts: ComparisonFacts)
    ensures
        !facts.metadata_equal ==> differs(facts),
        !facts.semantic_equal ==> differs(facts),
        !facts.text_equal ==> differs(facts),
        facts.semantic_findings ==> differs(facts),
        facts.text_findings ==> differs(facts),
        !facts.dimensions_equal ==> differs(facts),
        facts.differing_pixels > 0 ==> differs(facts),
        (facts.metadata_equal && facts.semantic_equal && facts.text_equal && !facts.semantic_findings
            && !facts.text_findings && facts.dimensions_equal && facts.differing_pixels == 0) ==> !differs(
            facts,
        ),
{
}

/// The verdict on a fixture from what verification learned of it.
pub fn fixture_verdict(evidence: &FixtureEvidence) -> (r: FixtureVerdict)
    ensures
        match *evidence {
            FixtureEvidence::CaptureFailed => r matches FixtureVerdict::Unavailable(reason) && reason@ == "capture_failed"@,
            FixtureEvidence::BaselineIncomplete => r matches FixtureVerdict::Unavailable(reason) && reason@
                == "missing_checked_in_baseline"@,
            FixtureEvidence::ComparisonFailed => r matches FixtureVerdict::Unavailable(reason) && reason@
                == "comparison_failed"@,
            FixtureEvidence::Compared(facts) => if differs(facts) {
                r is Differs
            } else {
                r is Passed
            },
        },
{
    match evidence {
        FixtureEvidence::CaptureFailed => FixtureVerdict::Unavailable(crate::strings::owned("capture_failed")),
        FixtureEvidence::BaselineIncomplete => FixtureVerdict::Unavailable(
            crate::strings::owned("missing_checked_in_baseline"),
        ),
        FixtureEvidence::ComparisonFailed => FixtureVerdict::Unavailable(crate::strings::owned("comparison_failed")),
        FixtureEvidence::Compared(facts) => {
            if !facts.metadata_equal || !facts.semantic_equal || !facts.text_equal || facts.semantic_findings
                || facts.text_findings || !facts.dimensions_equal || facts.differing_pixels != 0 {
                FixtureVerdict::Differs
            } else {
                FixtureVerdict::Passed
            }
        },
    }
}

/// The fixtures among the first `k` that did not pass, in order.
pub open spec fn failed_fixtures(fixture_ids: Seq<Seq<char>>, passed: Seq<bool>, k: int) -> Seq<Seq<char>>
    decreases k,
{
    if k <= 0 {
        Seq::empty()
    } else if passed[k - 1] {
        failed_fixtures(fixture_ids, passed, k - 1)
    } else {
        failed_fixtures(fixture_ids, passed, k - 1).push(fixture_ids[k - 1])
    }
}

/// The failures verification reports: each fixture that did not pass, in
/// order, then each unexpected checked-in baseline, or the baseline
/// inventory where it could not be taken.
pub open spec fn failure_list(
    fixture_ids: Seq<Seq<char>>,
    passed: Seq<bool>,
    inventory: Option<Seq<Seq<char>>>,
) -> Seq<Seq<char>> {
    let failed = failed_fixtures(fixture_ids, passed, fixture_ids.len() as int);
    match inventory {
        Some(unexpected) => failed + unexpected.map_values(|id: Seq<char>| "unexpected-baseline:"@ + id),
        None => failed.push("baseline-inventory"@),
    }
}

pub open spec fn passed_views(verdicts: Seq<FixtureVerdict>) -> Seq<bool> {
    verdicts.map_values(|v: FixtureVerdict| v is Passed)
}

pub open spec fn inventory_view(unexpected: Option<&Vec<String>>) -> Option<Seq<Seq<char>>> {
    match unexpected {
        Some(list) => Some(crate::text_order::string_views(list@)),
        None => None,
    }
}

/// The failures that verification reports, given each fixture's verdict and
/// the unexpected checked-in baselines, or none where the baseline inventory
/// could not be taken. Verification fails exactly when the list is not
/// empty.
pub fn verification_failures(
    fixture_ids: &Vec<String>,
    verdicts: &Vec<FixtureVerdict>,
    unexpected: Option<&Vec<String>>,
) -> (r: Vec<String>)
    requires
        fixture_ids.len() == verdicts.len(),
    ensures
        crate::text_order::string_views(r@) == failure_list(
            crate::text_order::string_views(fixture_ids@),
            passed_views(verdicts@),
            inventory_view(unexpected),
        ),
{
    let ghost ids = crate::text_order::string_views(fixture_ids@);
    let ghost passed = passed_views(verdicts@);
    let mut out: Vec<String> = Vec::new();
    let mut k: usize = 0;
    while k < fixture_ids.len()
        invariant
            ids == crate::text_order::string_views(fixture_ids@),
            passed == passed_views(verdicts@),
            fixture_ids.len() == verdicts.len(),
            0 <= k <= fixture_ids.len(),
            crate::text_order::string_views(out@) == failed_fixtures(ids, passed, k as int),
        decreases fixture_ids.len() - k,
    {
        let ghost before = crate::text_order::string_views(out@);
        let ok = match verdicts[k] {
            FixtureVerdict::Passed => true,
            _ => false,
        };
        assert(passed[k as int] == ok);
        if !ok {
            out.push(fixture_ids[k].clone());
            assert(crate::text_order::string_views(out@) =~= before.push(ids[k as int]));
        }
        k = k + 1;
    }
    let ghost failed = crate::text_order::string_views(out@);
    match unexpected {
        Some(list) => {
            let ghost listed = crate::text_order::string_views(list@);
            let mut j: usize = 0;
            while j < list.len()
                invariant
                    listed == crate::text_order::string_views(list@),
                    0 <= j <= list.len(),
                    crate::text_order::string_views(out@) == failed + listed.take(j as int).map_values(
                        |id: Seq<char>| "unexpected-baseline:"@ + id,
                    ),
                decreases list.len() - j,
            {
                let ghost before = crate::text_order::string_views(out@);
                let mut text = chars_of("unexpected-baseline:");
                push_str(&mut text, list[j].as_str());
                let entry = string_from_chars(&text);
                out.push(entry);
                proof {
                    let f = |id: Seq<char>| "unexpected-baseline:"@ + id;
                    assert(listed[j as int] == list@[j as int]@);
                    assert(entry@ == f(listed[j as int]));
                    assert(crate::text_order::string_views(out@) =~= before.push(entry@));
                    assert(listed.take(j + 1) =~= listed.take(j as int).push(listed[j as int]));
                    assert(listed.take(j + 1).map_values(f) =~= listed.take(j as int).map_values(f).push(
                        f(listed[j as int]),
                    ));
                    assert(crate::text_order::string_views(out@) =~= failed + listed.take(j + 1).map_values(
                        |id: Seq<char>| "unexpected-baseline:"@ + id,
                    ));
                }
                j = j + 1;
            }
            proof {
                assert(listed.take(list.len() as int) =~= listed);
            }
        },
        None => {
            out.push(crate::strings::owned("baseline-inventory"));
            assert(crate::text_order::string_views(out@) =~= failed.push("baseline-inventory"@));
        },
    }
    out
}

/// The checked-in baselines that no fixture of the manifest has: each
/// once, in ascending order.
pub fn unexpected_baselines(baseline_ids: &Vec<String>, fixture_ids: &Vec<String>) -> (r: Vec<String>)
    ensures
        crate::text_order::ascending(crate::text_order::string_views(r@)),
        forall|x: Seq<char>|
            #[trigger] crate::text_order::string_views(r@).contains(x) <==> (crate::text_order::string_views(
                baseline_ids@,
            ).contains(x) && !crate::text_order::string_views(fixture_ids@).contains(x)),
{
    let ghost baselines = crate::text_order::string_views(baseline_ids@);
    let ghost fixtures = crate::text_order::string_views(fixture_ids@);
    let mut kept: Vec<String> = Vec::new();
    let mut i: usize = 0;
    while i < baseline_ids.len()
        invariant
            baselines == crate::text_order::string_views(baseline_ids@),
            fixtures == crate::text_order::string_views(fixture_ids@),
            0 <= i <= baseline_ids.len(),
            forall|x: Seq<char>|
                #[trigger] crate::text_order::string_views(kept@).contains(x) <==> (baselines.take(i as int).contains(x)
                    && !fixtures.contains(x)),
        decreases baseline_ids.len() - i,
    {
        let ghost before = crate::text_order::string_views(kept@);
        let listed = crate::text_order::holds(fixture_ids, baseline_ids[i].as_str());
        if !listed {
            kept.push(baseline_ids[i].clone());
        }
        proof {
            let now = crate::text_order::string_views(kept@);
            let x_i = baselines[i as int];
            assert(x_i == baseline_ids@[i as int]@);
            if listed {
                assert(now =~= before);
            } else {
                assert(now =~= before.push(x_i));
            }
            let longer = baselines.take(i + 1);
            let shorter = baselines.take(i as int);
            assert(longer =~= shorter.push(x_i));
            assert forall|x: Seq<char>| #[trigger] now.contains(x) <==> (longer.contains(x) && !fixtures.contains(x)) by {
                if now.contains(x) {
                    let j = choose|j: int| 0 <= j < now.len() && now[j] == x;
                    if j < before.len() {
                        assert(before[j] == x);
                        assert(before.contains(x));
                        let t = choose|t: int| 0 <= t < shorter.len() && shorter[t] == x;
                        assert(longer[t] == x);
                    } else {
                        assert(longer[i as int] == x);
                    }
                }
                if longer.contains(x) && !fixtures.contains(x) {
                    let t = choose|t: int| 0 <= t < longer.len() && longer[t] == x;
                    if t < i {
                        assert(shorter[t] == x);
                        assert(shorter.contains(x));
                        assert(before.contains(x));
                        let j = choose|j: int| 0 <= j < before.len() && before[j] == x;
                        assert(now[j] == x);
                    } else {
                        assert(x == x_i);
                        assert(now[now.len() - 1] == x);
                    }
                }
            }
        }
        i = i + 1;
    }
    proof {
        assert(baselines.take(baseline_ids.len() as int) =~= baselines);
    }
    let r = crate::text_order::sorted_unique(&kept);
    proof {
        let views = crate::text_order::string_views(kept@);
        assert forall|x: Seq<char>| #[trigger] crate::text_order::string_views(r@).contains(x) <==> (baselines.contains(x)
            && !fixtures.contains(x)) by {
            assert(views.contains(x) <==> crate::text_order::string_views(r@).contains(x));
        }
        assert(crate::text_order::string_views(r@).map_values(crate::text_order::text_key()) =~= crate::text_order::string_views(r@));
    }
    r
}

} // verus!
