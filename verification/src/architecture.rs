//! The architecture rules that repository sources are held to: panes reach
//! the application through narrow APIs, interface text is measured rather
//! than counted, styling goes through typed tokens, and there is one
//! workspace definition.
use vstd::prelude::*;

use crate::strings::{
    chars_of, debug_quoted, debug_text, decimal, decimal_chars, decimal_chars_wide, push_chars,
    push_str, string_from_chars,
};
use crate::text_scan::{copy_range, find, find_chars, lines, lines_of, char_views};

verus! {

/// `pattern` occurs in `text`.
pub open spec fn contains(text: Seq<char>, pattern: Seq<char>) -> bool {
    find(text, pattern) is Some
}

/// The first of `patterns`, from position `k` on, that occurs in `text`.
pub open spec fn first_found(text: Seq<char>, patterns: Seq<Seq<char>>, k: int) -> Option<int>
    decreases patterns.len() - k,
{
    if k < 0 || k >= patterns.len() {
        None
    } else if contains(text, patterns[k]) {
        Some(k)
    } else {
        first_found(text, patterns, k + 1)
    }
}

/// The views of string literals.
pub open spec fn str_views(patterns: Seq<&str>) -> Seq<Seq<char>> {
    patterns.map_values(|p: &str| p@)
}

/// The first of `patterns` that occurs in `text`.
fn first_found_in(text: &Vec<char>, patterns: &[&str]) -> (r: Option<usize>)
    ensures
        match r {
            Some(k) => first_found(text@, str_views(patterns@), 0) == Some(k as int) && k
                < patterns@.len(),
            None => first_found(text@, str_views(patterns@), 0) is None,
        },
{
    let ghost all = str_views(patterns@);
    let mut k: usize = 0;
    while k < patterns.len()
        invariant
            0 <= k <= patterns@.len(),
            all == str_views(patterns@),
            first_found(text@, all, 0) == first_found(text@, all, k as int),
        decreases patterns@.len() - k,
    {
        let pattern = chars_of(patterns[k]);
        if find_chars(text, &pattern).is_some() {
            return Some(k);
        }
        k = k + 1;
    }
    None
}

/// Whether `pattern` occurs in `text`.
pub fn contains_str(text: &Vec<char>, pattern: &str) -> (r: bool)
    ensures
        r == contains(text@, pattern@),
{
    let chars = chars_of(pattern);
    find_chars(text, &chars).is_some()
}

/// What panes may not reach: the whole application model, runtime,
/// workspace or session, broad mutable maps, and the GPU.
pub open spec fn broad_pane_access() -> Seq<Seq<char>> {
    seq![
        "&mut AppModel"@,
        "&mut Runtime"@,
        "&mut Workspace"@,
        "&mut Session"@,
        "pub session:"@,
        "&'a mut BTreeMap<PaneId, ActiveTool>"@,
        "&'a mut BTreeMap<PaneId, DisplaySettings>"@,
        "&'a mut Option<ResultId>"@,
        "&'a mut Option<AnnotationId>"@,
        "&wgpu::Device"@,
        "&wgpu::Queue"@,
        "egui_wgpu::"@,
        "submit_scalar_callback"@,
    ]
}

/// The pane sources reach nothing broad; the error names the first broad
/// access found.
pub open spec fn pane_api_rule(source: Seq<char>) -> Result<(), Seq<char>> {
    match first_found(source, broad_pane_access(), 0) {
        Some(k) => Err("pane API contains forbidden broad access: "@ + broad_pane_access()[k]),
        None => Ok(()),
    }
}

/// Checks the joined pane sources for broad access.
pub fn check_pane_api(source: &str) -> (r: Result<(), String>)
    ensures
        match pane_api_rule(source@) {
            Ok(_) => r is Ok,
            Err(message) => r matches Err(e) && e@ == message,
        },
{
    let text = chars_of(source);
    let patterns: [&str; 13] = [
        "&mut AppModel",
        "&mut Runtime",
        "&mut Workspace",
        "&mut Session",
        "pub session:",
        "&'a mut BTreeMap<PaneId, ActiveTool>",
        "&'a mut BTreeMap<PaneId, DisplaySettings>",
        "&'a mut Option<ResultId>",
        "&'a mut Option<AnnotationId>",
        "&wgpu::Device",
        "&wgpu::Queue",
        "egui_wgpu::",
        "submit_scalar_callback",
    ];
    proof {
        assert(str_views(patterns@) =~= broad_pane_access());
    }
    match first_found_in(&text, &patterns) {
        Some(k) => {
            let mut message = chars_of("pane API contains forbidden broad access: ");
            push_str(&mut message, patterns[k]);
            Err(string_from_chars(&message))
        },
        None => Ok(()),
    }
}

/// Text sized by counting characters instead of measuring it.
pub open spec fn counted_text_sizing() -> Seq<Seq<char>> {
    seq!["title.len()"@, ".chars().count()"@, ".len() as f32"@, ".len() as f64"@]
}

/// A production interface source sizes no text by counting characters.
pub open spec fn text_sizing_rule(path: Seq<char>, source: Seq<char>) -> Result<(), Seq<char>> {
    match first_found(source, counted_text_sizing(), 0) {
        Some(k) => Err(
            "production UI source "@ + path
                + " contains forbidden character-count text sizing pattern "@ + debug_text(
                counted_text_sizing()[k],
            ) + "; use egui galley measurement"@,
        ),
        None => Ok(()),
    }
}

/// Checks a production interface source, at `path`, for counted text sizes.
pub fn check_text_sizing(path: &str, source: &str) -> (r: Result<(), String>)
    ensures
        match text_sizing_rule(path@, source@) {
            Ok(_) => r is Ok,
            Err(message) => r matches Err(e) && e@ == message,
        },
{
    let text = chars_of(source);
    let patterns: [&str; 4] = ["title.len()", ".chars().count()", ".len() as f32", ".len() as f64"];
    proof {
        assert(str_views(patterns@) =~= counted_text_sizing());
    }
    match first_found_in(&text, &patterns) {
        Some(k) => {
            let mut message = chars_of("production UI source ");
            push_str(&mut message, path);
            push_str(&mut message, " contains forbidden character-count text sizing pattern ");
            let quoted = debug_quoted(patterns[k]);
            let quoted_chars = chars_of(quoted.as_str());
            push_chars(&mut message, &quoted_chars);
            push_str(&mut message, "; use egui galley measurement");
            Err(string_from_chars(&message))
        },
        None => Ok(()),
    }
}

/// Styles and controls that bypass the typed tokens and component recipes.
pub open spec fn unmanaged_styling() -> Seq<Seq<char>> {
    seq![
        "egui::Color32"@,
        "egui::RichText"@,
        "egui::TextStyle"@,
        "egui::FontId"@,
        "egui::CornerRadius"@,
        "egui::Margin"@,
        "ui.button("@,
        "ui.selectable_label("@,
        "ui.strong("@,
        "ui.monospace("@,
    ]
}

/// The first line, from `k` on, that adds space without typed tokens.
pub open spec fn first_unmanaged_spacing(lines: Seq<Seq<char>>, k: int) -> Option<int>
    decreases lines.len() - k,
{
    if k < 0 || k >= lines.len() {
        None
    } else if contains(lines[k], "ui.add_space("@) && !contains(lines[k], "tokens."@) {
        Some(k)
    } else {
        first_unmanaged_spacing(lines, k + 1)
    }
}

/// An application interface source uses typed tokens and recipes for style,
/// controls and spacing; the error names the first exception, and for
/// spacing its line number.
pub open spec fn managed_style_rule(path: Seq<char>, source: Seq<char>) -> Result<(), Seq<char>> {
    match first_found(source, unmanaged_styling(), 0) {
        Some(k) => Err(
            "production UI source "@ + path + " contains unmanaged style or control primitive "@
                + debug_text(unmanaged_styling()[k])
                + "; use typed tokens and a polyorama-ui-egui recipe"@,
        ),
        None => match first_unmanaged_spacing(lines(source), 0) {
            Some(i) => Err(
                "production UI source "@ + path + ":"@ + decimal((i + 1) as nat)
                    + " contains unmanaged spacing; use typed spacing tokens"@,
            ),
            None => Ok(()),
        },
    }
}

fn first_unmanaged_spacing_in(lines: &Vec<Vec<char>>) -> (r: Option<usize>)
    ensures
        match r {
            Some(i) => first_unmanaged_spacing(char_views(lines@), 0) == Some(i as int) && i
                < lines.len(),
            None => first_unmanaged_spacing(char_views(lines@), 0) is None,
        },
{
    let ghost all = char_views(lines@);
    let mut i: usize = 0;
    while i < lines.len()
        invariant
            0 <= i <= lines@.len(),
            all == char_views(lines@),
            first_unmanaged_spacing(all, 0) == first_unmanaged_spacing(all, i as int),
        decreases lines@.len() - i,
    {
        proof {
            assert(all[i as int] == lines@[i as int]@);
        }
        if contains_str(&lines[i], "ui.add_space(") && !contains_str(&lines[i], "tokens.") {
            return Some(i);
        }
        i = i + 1;
    }
    None
}

/// Checks an application interface source, at `path`, for unmanaged style,
/// controls and spacing.
pub fn check_managed_style(path: &str, source: &str) -> (r: Result<(), String>)
    ensures
        match managed_style_rule(path@, source@) {
            Ok(_) => r is Ok,
            Err(message) => r matches Err(e) && e@ == message,
        },
{
    let text = chars_of(source);
    let patterns: [&str; 10] = [
        "egui::Color32",
        "egui::RichText",
        "egui::TextStyle",
        "egui::FontId",
        "egui::CornerRadius",
        "egui::Margin",
        "ui.button(",
        "ui.selectable_label(",
        "ui.strong(",
        "ui.monospace(",
    ];
    proof {
        assert(str_views(patterns@) =~= unmanaged_styling());
    }
    match first_found_in(&text, &patterns) {
        Some(k) => {
            let mut message = chars_of("production UI source ");
            push_str(&mut message, path);
            push_str(&mut message, " contains unmanaged style or control primitive ");
            let quoted = debug_quoted(patterns[k]);
            let quoted_chars = chars_of(quoted.as_str());
            push_chars(&mut message, &quoted_chars);
            push_str(&mut message, "; use typed tokens and a polyorama-ui-egui recipe");
            return Err(string_from_chars(&message));
        },
        None => {},
    }
    let source_lines = lines_of(&text);
    match first_unmanaged_spacing_in(&source_lines) {
        Some(i) => {
            let mut message = chars_of("production UI source ");
            push_str(&mut message, path);
            push_str(&mut message, ":");
            let number = decimal_chars(i as u64 + 1);
            push_chars(&mut message, &number);
            push_str(&mut message, " contains unmanaged spacing; use typed spacing tokens");
            Err(string_from_chars(&message))
        },
        None => Ok(()),
    }
}


/// The first of `patterns`, from position `k` on, that does not occur in
/// `text`.
pub open spec fn first_missing(text: Seq<char>, patterns: Seq<Seq<char>>, k: int) -> Option<int>
    decreases patterns.len() - k,
{
    if k < 0 || k >= patterns.len() {
        None
    } else if !contains(text, patterns[k]) {
        Some(k)
    } else {
        first_missing(text, patterns, k + 1)
    }
}

fn first_missing_in(text: &Vec<char>, patterns: &[&str]) -> (r: Option<usize>)
    ensures
        match r {
            Some(k) => first_missing(text@, str_views(patterns@), 0) == Some(k as int) && k
                < patterns@.len(),
            None => first_missing(text@, str_views(patterns@), 0) is None,
        },
{
    let ghost all = str_views(patterns@);
    let mut k: usize = 0;
    while k < patterns.len()
        invariant
            0 <= k <= patterns@.len(),
            all == str_views(patterns@),
            first_missing(text@, all, 0) == first_missing(text@, all, k as int),
        decreases patterns@.len() - k,
    {
        if !contains_str(text, patterns[k]) {
            return Some(k);
        }
        k = k + 1;
    }
    None
}

/// Feature code that belongs in its own pane module, not the dispatcher.
pub open spec fn feature_implementations() -> Seq<Seq<char>> {
    seq!["fn image_pane"@, "fn handle_camera"@, "fn handle_annotations"@, "fn diagnostics_pane"@]
}

/// The narrow pane API.
pub open spec fn narrow_pane_api() -> Seq<Seq<char>> {
    seq!["PaneReadModel"@, "PaneFeatureState"@, "PaneIntent"@]
}

/// The pane dispatcher holds no feature code; its `PaneSurface` exposes no
/// public field; and it names the narrow pane API.
pub open spec fn pane_dispatcher_rule(source: Seq<char>) -> Result<(), Seq<char>> {
    match first_found(source, feature_implementations(), 0) {
        Some(k) => Err(
            "pane dispatcher contains feature implementation: "@ + feature_implementations()[k],
        ),
        None => match find(source, "pub struct PaneSurface"@) {
            None => Err("PaneSurface is missing"@),
            Some(start) => {
                let rest = source.subrange(start, source.len() as int);
                match find(rest, "\n}\n"@) {
                    None => Err("PaneSurface boundary is malformed"@),
                    Some(offset) => if contains(rest.subrange(0, offset), "\n    pub "@) {
                        Err(
                            "PaneSurface exposes presentation fields instead of read models and feature state"@,
                        )
                    } else {
                        match first_missing(source, narrow_pane_api(), 0) {
                            Some(k) => Err("narrow pane API is missing "@ + narrow_pane_api()[k]),
                            None => Ok(()),
                        }
                    },
                }
            },
        },
    }
}

/// Checks the pane dispatcher.
pub fn check_pane_dispatcher(source: &str) -> (r: Result<(), String>)
    ensures
        match pane_dispatcher_rule(source@) {
            Ok(_) => r is Ok,
            Err(message) => r matches Err(e) && e@ == message,
        },
{
    let text = chars_of(source);
    let misplaced: [&str; 4] = [
        "fn image_pane",
        "fn handle_camera",
        "fn handle_annotations",
        "fn diagnostics_pane",
    ];
    proof {
        assert(str_views(misplaced@) =~= feature_implementations());
    }
    match first_found_in(&text, &misplaced) {
        Some(k) => {
            let mut message = chars_of("pane dispatcher contains feature implementation: ");
            push_str(&mut message, misplaced[k]);
            return Err(string_from_chars(&message));
        },
        None => {},
    }
    let surface = chars_of("pub struct PaneSurface");
    let start = match find_chars(&text, &surface) {
        Some(start) => start,
        None => {
            return Err(string_from_chars(&chars_of("PaneSurface is missing")));
        },
    };
    proof {
        assert(crate::text_scan::is_first_match(text@, surface@, start as int));
    }
    let rest = copy_range(&text, start, text.len());
    let closing = chars_of("\n}\n");
    let offset = match find_chars(&rest, &closing) {
        Some(offset) => offset,
        None => {
            return Err(string_from_chars(&chars_of("PaneSurface boundary is malformed")));
        },
    };
    proof {
        assert(crate::text_scan::is_first_match(rest@, closing@, offset as int));
    }
    let body = copy_range(&rest, 0, offset);
    if contains_str(&body, "\n    pub ") {
        return Err(
            string_from_chars(
                &chars_of(
                    "PaneSurface exposes presentation fields instead of read models and feature state",
                ),
            ),
        );
    }
    let required: [&str; 3] = ["PaneReadModel", "PaneFeatureState", "PaneIntent"];
    proof {
        assert(str_views(required@) =~= narrow_pane_api());
    }
    match first_missing_in(&text, &required) {
        Some(k) => {
            let mut message = chars_of("narrow pane API is missing ");
            push_str(&mut message, required[k]);
            Err(string_from_chars(&message))
        },
        None => Ok(()),
    }
}

/// The application shell submits the whole typed render plan of a frame.
pub open spec fn application_shell_rule(source: Seq<char>) -> Result<(), Seq<char>> {
    if contains(source, "if let Err(error) = submit_render_plan(&outputs.render_plan"@) {
        Ok(())
    } else {
        Err("application shell must submit the complete typed frame render plan"@)
    }
}

/// Checks the application shell.
pub fn check_application_shell(source: &str) -> (r: Result<(), String>)
    ensures
        match application_shell_rule(source@) {
            Ok(_) => r is Ok,
            Err(message) => r matches Err(e) && e@ == message,
        },
{
    let text = chars_of(source);
    if contains_str(&text, "if let Err(error) = submit_render_plan(&outputs.render_plan") {
        Ok(())
    } else {
        Err(string_from_chars(&chars_of("application shell must submit the complete typed frame render plan")))
    }
}

/// What the egui integration must enforce about the render lifecycle.
pub open spec fn lifecycle_enforcement() -> Seq<Seq<char>> {
    seq!["RenderPlanSubmissionError"@, "validate_plan_target_panes"@, "stage_renderer_maintenance"@]
}

/// The egui integration reports interaction through its frame output rather
/// than repainting itself, and enforces the render lifecycle.
pub open spec fn egui_integration_rule(source: Seq<char>) -> Result<(), Seq<char>> {
    if contains(source, "request_repaint"@) {
        Err("egui integration must report interaction activity through FrameOutput"@)
    } else {
        match first_missing(source, lifecycle_enforcement(), 0) {
            Some(k) => Err(
                "egui integration is missing lifecycle enforcement: "@ + lifecycle_enforcement()[k],
            ),
            None => Ok(()),
        }
    }
}

/// Checks the egui integration.
pub fn check_egui_integration(source: &str) -> (r: Result<(), String>)
    ensures
        match egui_integration_rule(source@) {
            Ok(_) => r is Ok,
            Err(message) => r matches Err(e) && e@ == message,
        },
{
    let text = chars_of(source);
    if contains_str(&text, "request_repaint") {
        return Err(
            string_from_chars(&chars_of("egui integration must report interaction activity through FrameOutput")),
        );
    }
    let required: [&str; 3] = [
        "RenderPlanSubmissionError",
        "validate_plan_target_panes",
        "stage_renderer_maintenance",
    ];
    proof {
        assert(str_views(required@) =~= lifecycle_enforcement());
    }
    match first_missing_in(&text, &required) {
        Some(k) => {
            let mut message = chars_of("egui integration is missing lifecycle enforcement: ");
            push_str(&mut message, required[k]);
            Err(string_from_chars(&message))
        },
        None => Ok(()),
    }
}

/// The renderer creates no device of its own.
pub open spec fn renderer_rule(source: Seq<char>) -> Result<(), Seq<char>> {
    if contains(source, "create_device"@) {
        Err("renderer or viewport creates an additional wgpu device"@)
    } else {
        Ok(())
    }
}

/// Checks the renderer.
pub fn check_renderer(source: &str) -> (r: Result<(), String>)
    ensures
        match renderer_rule(source@) {
            Ok(_) => r is Ok,
            Err(message) => r matches Err(e) && e@ == message,
        },
{
    let text = chars_of(source);
    if contains_str(&text, "create_device") {
        Err(string_from_chars(&chars_of("renderer or viewport creates an additional wgpu device")))
    } else {
        Ok(())
    }
}

/// How many times `pattern` occurs in `text` without overlapping, counted
/// from the start.
pub open spec fn count_matches(text: Seq<char>, pattern: Seq<char>) -> nat
    decreases text.len(),
{
    if pattern.len() == 0 {
        0
    } else {
        match find(text, pattern) {
            Some(i) => if 0 <= i && i + pattern.len() <= text.len() {
                1 + count_matches(text.subrange(i + pattern.len(), text.len() as int), pattern)
            } else {
                0
            },
            None => 0,
        }
    }
}

proof fn lemma_count_bounded(text: Seq<char>, pattern: Seq<char>)
    ensures
        count_matches(text, pattern) <= text.len(),
    decreases text.len(),
{
    if pattern.len() > 0 {
        match find(text, pattern) {
            Some(i) => if 0 <= i && i + pattern.len() <= text.len() {
                lemma_count_bounded(text.subrange(i + pattern.len(), text.len() as int), pattern);
            },
            None => {},
        }
    }
}

/// How many times `pattern` occurs in `text` without overlapping.
pub fn count_occurrences(text: &Vec<char>, pattern: &str) -> (r: usize)
    ensures
        r == count_matches(text@, pattern@),
{
    let chars = chars_of(pattern);
    if chars.len() == 0 {
        return 0;
    }
    let mut rest = copy_range(text, 0, text.len());
    let mut count: usize = 0;
    let total = text.len();
    proof {
        assert(rest@ =~= text@);
    }
    loop
        invariant
            total == text@.len(),
            chars@ == pattern@,
            chars@.len() > 0,
            count + count_matches(rest@, pattern@) == count_matches(text@, pattern@),
            count <= text@.len() - rest@.len(),
            rest@.len() <= text@.len(),
        decreases rest@.len(),
    {
        let rest_len = rest.len();
        match find_chars(&rest, &chars) {
            Some(i) => {
                proof {
                    assert(crate::text_scan::is_first_match(rest@, chars@, i as int));
                    assert(i + chars@.len() <= rest@.len());
                    assert(count < text@.len());
                }
                let next = copy_range(&rest, i + chars.len(), rest_len);
                count = count + 1;
                rest = next;
            },
            None => {
                return count;
            },
        }
    }
}

/// There is exactly one canonical workspace definition in the given sources.
pub open spec fn canonical_workspace_rule(core_dock: Seq<char>, egui_integration: Seq<char>) -> Result<(), Seq<char>> {
    let found = count_matches(core_dock, "pub struct Workspace"@) + count_matches(
        egui_integration,
        "pub struct Workspace"@,
    );
    if found == 1 {
        Ok(())
    } else {
        Err("expected exactly one canonical Workspace definition, found "@ + decimal(found))
    }
}

/// Checks that the core dock module and the egui integration define one
/// workspace between them.
pub fn check_canonical_workspace(core_dock: &str, egui_integration: &str) -> (r: Result<(), String>)
    ensures
        match canonical_workspace_rule(core_dock@, egui_integration@) {
            Ok(_) => r is Ok,
            Err(message) => r matches Err(e) && e@ == message,
        },
{
    let first = chars_of(core_dock);
    let second = chars_of(egui_integration);
    let a = count_occurrences(&first, "pub struct Workspace");
    let b = count_occurrences(&second, "pub struct Workspace");
    proof {
        lemma_count_bounded(first@, "pub struct Workspace"@);
        lemma_count_bounded(second@, "pub struct Workspace"@);
    }
    let found = a as u128 + b as u128;
    if found == 1 {
        Ok(())
    } else {
        let mut message = chars_of("expected exactly one canonical Workspace definition, found ");
        let digits = decimal_chars_wide(found);
        push_chars(&mut message, &digits);
        Err(string_from_chars(&message))
    }
}

} // verus!
