//! Plain descriptions that interface components and the renderer share:
//! control states, user preferences and what they select, pane size classes,
//! display maps and metrics.
use vstd::prelude::*;

use crate::ids::PaneId;
use crate::semantics::SemanticUiId;
use crate::strings::{decimal, decimal_chars, push_chars, push_str, string_from_chars};

verus! {

/// How strongly an action control draws attention.
#[derive(Clone, Copy, Debug, PartialEq, Eq, Structural)]
pub enum ActionEmphasis {
    Quiet,
    /// Transparent resting chrome with a hover fill and an independent focus
    /// ring.
    QuietBorderless,
    Normal,
    Primary,
}

/// Whether an action control acts once or holds a pressed state.
#[derive(Clone, Copy, Debug, PartialEq, Eq, Structural)]
pub enum ActionButtonState {
    Momentary,
    Toggle { pressed: bool },
}

impl ActionButtonState {
    /// The control is a toggle that is pressed.
    pub fn pressed(self) -> (r: bool)
        ensures
            r == (self == ActionButtonState::Toggle { pressed: true }),
    {
        match self {
            ActionButtonState::Toggle { pressed } => pressed,
            ActionButtonState::Momentary => false,
        }
    }

    /// The toggle state of a toggle; nothing for a momentary control.
    pub fn toggled(self) -> (r: Option<bool>)
        ensures
            r == match self {
                ActionButtonState::Momentary => None,
                ActionButtonState::Toggle { pressed } => Some(pressed),
            },
    {
        match self {
            ActionButtonState::Momentary => None,
            ActionButtonState::Toggle { pressed } => Some(pressed),
        }
    }
}

/// How a dock splitter is drawn.
#[derive(Clone, Copy, Debug, PartialEq, Eq, Structural)]
pub struct SplitterVisualState {
    pub hovered: bool,
    pub active: bool,
    pub focused: bool,
}

/// The tone of a status badge.
#[derive(Clone, Copy, Debug, PartialEq, Eq, Structural)]
pub enum StatusTone {
    Neutral,
    Success,
    Warning,
    Error,
}

/// What a thumbnail cell shows.
#[derive(Clone, Copy, Debug, PartialEq, Eq, Structural)]
pub enum ThumbnailState {
    Loading,
    Resident,
    Error,
    Empty,
}

/// The texts of one row of the result table.
#[derive(Clone, Copy, Debug, PartialEq, Eq)]
pub struct ResultRowSpec<'a> {
    pub instance: u64,
    pub identifier: &'a str,
    pub position: &'a str,
    pub confidence: &'a str,
    pub category: &'a str,
    pub selected: bool,
}

/// The version of the stored interface preferences.
pub const UI_PREFERENCES_SCHEMA_VERSION: u32 = 1;

/// Light or dark interface; `Unknown` is a stored value from a later version.
#[derive(Clone, Copy, Debug, PartialEq, Eq, Structural)]
pub enum AppearancePreference {
    Light,
    Dark,
    System,
    Unknown,
}

#[derive(Clone, Copy, Debug, PartialEq, Eq, Structural)]
pub enum ContrastPreference {
    Standard,
    High,
    Unknown,
}

#[derive(Clone, Copy, Debug, PartialEq, Eq, Structural)]
pub enum DensityPreference {
    Compact,
    Comfortable,
    Unknown,
}

#[derive(Clone, Copy, Debug, PartialEq, Eq, Structural)]
pub enum MotionPreference {
    Full,
    Reduced,
    Unknown,
}

impl Default for AppearancePreference {
    fn default() -> (r: Self)
        ensures
            r == AppearancePreference::Dark,
    {
        AppearancePreference::Dark
    }
}

impl Default for ContrastPreference {
    fn default() -> (r: Self)
        ensures
            r == ContrastPreference::Standard,
    {
        ContrastPreference::Standard
    }
}

impl Default for DensityPreference {
    fn default() -> (r: Self)
        ensures
            r == DensityPreference::Comfortable,
    {
        DensityPreference::Comfortable
    }
}

impl Default for MotionPreference {
    fn default() -> (r: Self)
        ensures
            r == MotionPreference::Full,
    {
        MotionPreference::Full
    }
}

/// The stored appearance, or the default where it is unknown.
pub fn known_appearance(value: AppearancePreference) -> (r: AppearancePreference)
    ensures
        r == if value == AppearancePreference::Unknown {
            AppearancePreference::Dark
        } else {
            value
        },
{
    match value {
        AppearancePreference::Unknown => AppearancePreference::Dark,
        _ => value,
    }
}

/// The stored contrast, or the default where it is unknown.
pub fn known_contrast(value: ContrastPreference) -> (r: ContrastPreference)
    ensures
        r == if value == ContrastPreference::Unknown {
            ContrastPreference::Standard
        } else {
            value
        },
{
    match value {
        ContrastPreference::Unknown => ContrastPreference::Standard,
        _ => value,
    }
}

/// The stored density, or the default where it is unknown.
pub fn known_density(value: DensityPreference) -> (r: DensityPreference)
    ensures
        r == if value == DensityPreference::Unknown {
            DensityPreference::Comfortable
        } else {
            value
        },
{
    match value {
        DensityPreference::Unknown => DensityPreference::Comfortable,
        _ => value,
    }
}

/// The stored motion preference, or the default where it is unknown.
pub fn known_motion(value: MotionPreference) -> (r: MotionPreference)
    ensures
        r == if value == MotionPreference::Unknown {
            MotionPreference::Full
        } else {
            value
        },
{
    match value {
        MotionPreference::Unknown => MotionPreference::Full,
        _ => value,
    }
}

/// The colour theme the interface is drawn in.
#[derive(Clone, Copy, Debug, PartialEq, Eq, Structural)]
pub enum ThemeVariant {
    Light,
    Dark,
    LightHighContrast,
    DarkHighContrast,
}

/// The spacing the interface is drawn with.
#[derive(Clone, Copy, Debug, PartialEq, Eq, Structural)]
pub enum DensityVariant {
    Compact,
    Comfortable,
}

/// Whether the preferences ask for a dark interface.
pub open spec fn wants_dark(appearance: AppearancePreference, system_dark: bool) -> bool {
    match appearance {
        AppearancePreference::Light => false,
        AppearancePreference::System => system_dark,
        _ => true,
    }
}

/// The theme the preferences select: dark or light as asked (the system's
/// where the system is followed, dark where unknown), high contrast as asked.
pub open spec fn selected_theme(appearance: AppearancePreference, contrast: ContrastPreference, system_dark: bool) -> ThemeVariant {
    let dark = wants_dark(appearance, system_dark);
    if contrast == ContrastPreference::High {
        if dark {
            ThemeVariant::DarkHighContrast
        } else {
            ThemeVariant::LightHighContrast
        }
    } else if dark {
        ThemeVariant::Dark
    } else {
        ThemeVariant::Light
    }
}

/// The theme selected by the appearance and contrast preferences.
pub fn theme_variant(appearance: AppearancePreference, contrast: ContrastPreference, system_dark: bool) -> (r: ThemeVariant)
    ensures
        r == selected_theme(appearance, contrast, system_dark),
{
    let dark = match appearance {
        AppearancePreference::Light => false,
        AppearancePreference::Dark | AppearancePreference::Unknown => true,
        AppearancePreference::System => system_dark,
    };
    match contrast {
        ContrastPreference::High => if dark {
            ThemeVariant::DarkHighContrast
        } else {
            ThemeVariant::LightHighContrast
        },
        _ => if dark {
            ThemeVariant::Dark
        } else {
            ThemeVariant::Light
        },
    }
}

/// The density selected by the density preference: comfortable unless
/// compact is asked for.
pub fn density_variant(density: DensityPreference) -> (r: DensityVariant)
    ensures
        r == if density == DensityPreference::Compact {
            DensityVariant::Compact
        } else {
            DensityVariant::Comfortable
        },
{
    match density {
        DensityPreference::Compact => DensityVariant::Compact,
        _ => DensityVariant::Comfortable,
    }
}

/// The type scale of a consumer: dense instruments or reading surfaces.
#[derive(Clone, Copy, Debug, PartialEq, Eq, Structural)]
pub enum TypographyProfile {
    Dense,
    Reading,
}

impl Default for TypographyProfile {
    fn default() -> (r: Self)
        ensures
            r == TypographyProfile::Dense,
    {
        TypographyProfile::Dense
    }
}

/// Horizontal pane behaviour from the layout breakpoints.
#[derive(Clone, Copy, Debug, PartialEq, Eq, Structural)]
pub enum PaneWidthClass {
    Narrow,
    Regular,
    Wide,
}

/// Vertical pane behaviour from the layout breakpoints.
#[derive(Clone, Copy, Debug, PartialEq, Eq, Structural)]
pub enum PaneHeightClass {
    Shallow,
    Regular,
    Tall,
}

#[derive(Clone, Copy, Debug, PartialEq, Eq, Structural)]
pub struct PaneSizeClass {
    pub width: PaneWidthClass,
    pub height: PaneHeightClass,
}

/// Presentation outside the component recipes, with its justification.
#[derive(Clone, Debug, PartialEq, Eq)]
pub struct RawPresentation {
    pub id: SemanticUiId,
    pub reason: &'static str,
}

/// Why an application theme was refused.
#[derive(Clone, Debug, PartialEq, Eq)]
pub struct ThemeValidationError(pub String);

impl ThemeValidationError {
    /// The message of the error.
    pub fn message(&self) -> (r: &str)
        ensures
            r@ == self.0@,
    {
        self.0.as_str()
    }
}

/// Why a frame was repainted.
#[derive(Clone, Copy, Debug, PartialEq, Eq, Structural)]
pub enum RepaintReason {
    /// No repaint was asked for.
    Idle,
    Interaction,
    Command,
    WorkerCompletion,
    PendingUpload,
    Animation,
    Scheduled,
}

impl Default for RepaintReason {
    fn default() -> (r: Self)
        ensures
            r == RepaintReason::Idle,
    {
        RepaintReason::Idle
    }
}

/// The number of results the analytical workspace lists.
pub const RESULT_COUNT: u64 = 1_000_000;

/// The number of thumbnails the analytical workspace lays out.
pub const THUMBNAIL_COUNT: u64 = 100_000;

/// How much of the result list and the thumbnail grid is visible and
/// materialised: the visible ranges as first and one-past-last positions.
#[derive(Clone, Copy, Debug, PartialEq, Eq)]
pub struct VirtualisationMetrics {
    pub result_count: u64,
    pub visible_rows: (usize, usize),
    pub materialised_rows: usize,
    pub row_overscan: usize,
    pub thumbnail_count: u64,
    pub visible_thumbnails: (usize, usize),
    pub materialised_thumbnails: usize,
}

impl Default for VirtualisationMetrics {
    /// Every result and thumbnail counted, none visible yet, and eight rows of
    /// overscan.
    fn default() -> (r: Self)
        ensures
            r == (VirtualisationMetrics {
                result_count: RESULT_COUNT,
                visible_rows: (0, 0),
                materialised_rows: 0,
                row_overscan: 8,
                thumbnail_count: THUMBNAIL_COUNT,
                visible_thumbnails: (0, 0),
                materialised_thumbnails: 0,
            }),
    {
        VirtualisationMetrics {
            result_count: RESULT_COUNT,
            visible_rows: (0, 0),
            materialised_rows: 0,
            row_overscan: 8,
            thumbnail_count: THUMBNAIL_COUNT,
            visible_thumbnails: (0, 0),
            materialised_thumbnails: 0,
        }
    }
}

/// Counts describing the dock workspace.
#[derive(Clone, Copy, Debug, PartialEq, Eq, Structural)]
pub struct WorkspaceMetrics {
    pub registered_panes: usize,
    pub visible_panes: usize,
    pub active_pane: Option<PaneId>,
    pub dock_nodes: usize,
    pub serialised_bytes: usize,
}

impl Default for WorkspaceMetrics {
    fn default() -> (r: Self)
        ensures
            r == (WorkspaceMetrics {
                registered_panes: 0,
                visible_panes: 0,
                active_pane: None,
                dock_nodes: 0,
                serialised_bytes: 0,
            }),
    {
        WorkspaceMetrics {
            registered_panes: 0,
            visible_panes: 0,
            active_pane: None,
            dock_nodes: 0,
            serialised_bytes: 0,
        }
    }
}

/// How scalar samples are mapped to colours.
#[derive(Clone, Copy, Debug, PartialEq, Eq, Structural)]
pub enum DisplayMap {
    Viridis,
    Greyscale,
    Threshold,
}

/// A rectangle of physical pixels.
#[derive(Clone, Copy, Debug, PartialEq, Eq, Structural)]
pub struct PixelRect {
    pub x: u32,
    pub y: u32,
    pub width: u32,
    pub height: u32,
}


/// Why a frame's render plan does not match its staged image targets.
#[derive(Clone, Copy, Debug, PartialEq, Eq, Structural)]
pub enum RenderPlanSubmissionError {
    CountMismatch { requests: usize, targets: usize },
    PaneMismatch { index: usize, request: PaneId, target: PaneId },
    DuplicatePane(PaneId),
}

/// The first problem among the requests from `i` on: a pane requested a
/// second time, or a request whose target is another pane.
pub open spec fn first_plan_problem(requests: Seq<PaneId>, targets: Seq<PaneId>, i: int) -> Option<RenderPlanSubmissionError>
    decreases requests.len() - i,
{
    if i < 0 || i >= requests.len() {
        None
    } else if requests.subrange(0, i).contains(requests[i]) {
        Some(RenderPlanSubmissionError::DuplicatePane(requests[i]))
    } else if requests[i] != targets[i] {
        Some(
            RenderPlanSubmissionError::PaneMismatch {
                index: i as usize,
                request: requests[i],
                target: targets[i],
            },
        )
    } else {
        first_plan_problem(requests, targets, i + 1)
    }
}

/// Whether the image requests of a render plan match the staged targets
/// one for one, in order, with no pane twice.
pub open spec fn plan_targets_check(requests: Seq<PaneId>, targets: Seq<PaneId>) -> Result<(), RenderPlanSubmissionError> {
    if requests.len() != targets.len() {
        Err(
            RenderPlanSubmissionError::CountMismatch {
                requests: requests.len() as usize,
                targets: targets.len() as usize,
            },
        )
    } else {
        match first_plan_problem(requests, targets, 0) {
            Some(problem) => Err(problem),
            None => Ok(()),
        }
    }
}

/// Checks that the panes of a render plan's image requests are the panes of
/// the staged targets, in the same order, each once.
pub fn validate_plan_target_panes(requests: &[PaneId], targets: &[PaneId]) -> (r: Result<(), RenderPlanSubmissionError>)
    ensures
        r == plan_targets_check(requests@, targets@),
{
    if requests.len() != targets.len() {
        return Err(
            RenderPlanSubmissionError::CountMismatch { requests: requests.len(), targets: targets.len() },
        );
    }
    let mut i: usize = 0;
    while i < requests.len()
        invariant
            requests@.len() == targets@.len(),
            0 <= i <= requests@.len(),
            first_plan_problem(requests@, targets@, 0) == first_plan_problem(requests@, targets@, i as int),
        decreases requests@.len() - i,
    {
        let request = requests[i];
        let mut j: usize = 0;
        let mut seen = false;
        while j < i
            invariant
                0 <= j <= i < requests@.len(),
                seen == requests@.subrange(0, j as int).contains(request),
                request == requests@[i as int],
            decreases i - j,
        {
            let ghost before = requests@.subrange(0, j as int);
            let ghost after = requests@.subrange(0, j as int + 1);
            if requests[j] == request {
                seen = true;
                proof {
                    assert(after[j as int] == request);
                }
            } else {
                proof {
                    if after.contains(request) {
                        let k = choose|k: int| 0 <= k < after.len() && after[k] == request;
                        assert(k != j);
                        assert(before[k] == request);
                    }
                }
            }
            proof {
                if seen && requests@[j as int] != request {
                    let k = choose|k: int| 0 <= k < before.len() && before[k] == request;
                    assert(after[k] == request);
                }
            }
            j = j + 1;
        }
        if seen {
            return Err(RenderPlanSubmissionError::DuplicatePane(request));
        }
        if request != targets[i] {
            return Err(RenderPlanSubmissionError::PaneMismatch { index: i, request, target: targets[i] });
        }
        i = i + 1;
    }
    Ok(())
}


/// How a render plan error is reported.
pub open spec fn plan_error_text(error: RenderPlanSubmissionError) -> Seq<char> {
    match error {
        RenderPlanSubmissionError::CountMismatch { requests, targets } => "render plan has "@
            + decimal(requests as nat) + " requests but "@ + decimal(targets as nat)
            + " staged targets"@,
        RenderPlanSubmissionError::PaneMismatch { index, request, target } => "render plan request "@
            + decimal(index as nat) + " is pane "@ + decimal(request.0 as nat)
            + " but its staged target is pane "@ + decimal(target.0 as nat),
        RenderPlanSubmissionError::DuplicatePane(pane) => "render plan contains pane "@ + decimal(
            pane.0 as nat,
        ) + " more than once"@,
    }
}

impl RenderPlanSubmissionError {
    /// The report of the error.
    pub fn message(&self) -> (r: String)
        ensures
            r@ == plan_error_text(*self),
    {
        let mut text: Vec<char> = Vec::new();
        match *self {
            RenderPlanSubmissionError::CountMismatch { requests, targets } => {
                push_str(&mut text, "render plan has ");
                push_chars(&mut text, &decimal_chars(requests as u64));
                push_str(&mut text, " requests but ");
                push_chars(&mut text, &decimal_chars(targets as u64));
                push_str(&mut text, " staged targets");
            },
            RenderPlanSubmissionError::PaneMismatch { index, request, target } => {
                push_str(&mut text, "render plan request ");
                push_chars(&mut text, &decimal_chars(index as u64));
                push_str(&mut text, " is pane ");
                push_chars(&mut text, &decimal_chars(request.0 as u64));
                push_str(&mut text, " but its staged target is pane ");
                push_chars(&mut text, &decimal_chars(target.0 as u64));
            },
            RenderPlanSubmissionError::DuplicatePane(pane) => {
                push_str(&mut text, "render plan contains pane ");
                push_chars(&mut text, &decimal_chars(pane.0 as u64));
                push_str(&mut text, " more than once");
            },
        }
        proof {
            assert(text@ =~= plan_error_text(*self));
        }
        string_from_chars(&text)
    }
}

} // verus!
