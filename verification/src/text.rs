//! How interface text is declared, identified and audited, and what one
//! pass of the text audit covered.
use vstd::prelude::*;

verus! {

/// The most lines a text may declare.
pub const MAX_TEXT_LINES: u8 = 8;

/// What a text is for, which decides its style.
#[derive(Clone, Copy, Debug, PartialEq, Eq, Structural)]
pub enum TextRole {
    ApplicationTitle,
    PaneTitle,
    SectionHeading,
    Body,
    Secondary,
    Caption,
    TabularValue,
    MonospaceTechnical,
    ButtonLabel,
    TabLabel,
    Status,
    Error,
}

/// What happens to text larger than its allocation.
#[derive(Clone, Copy, Debug, PartialEq, Eq, Structural)]
pub enum TextOverflow {
    /// Elided at the declared width and line limit.
    Ellipsis,
    /// Wrapped to the declared line limit, then elided.
    Wrap,
    /// Laid out at its own size, painted clipped to its allocation.
    Clip,
    /// Laid out at its own size inside a scroll surface of the component.
    Scroll,
    /// The allocation grows to the measured single line.
    Expand,
}

#[derive(Clone, Copy, Debug, PartialEq, Eq, Structural)]
pub enum HorizontalTextAlignment {
    Start,
    Centre,
    End,
}

#[derive(Clone, Copy, Debug, PartialEq, Eq, Structural)]
pub enum VerticalTextAlignment {
    Top,
    Centre,
    Bottom,
}

/// A text's role, overflow policy, alignment and line limit.
#[derive(Clone, Copy, Debug, PartialEq, Eq, Structural)]
pub struct TextSpec {
    pub role: TextRole,
    pub overflow: TextOverflow,
    pub horizontal_alignment: HorizontalTextAlignment,
    pub vertical_alignment: VerticalTextAlignment,
    pub max_lines: u8,
}

/// Why text could not be laid out.
#[derive(Clone, Copy, Debug, PartialEq, Eq, Structural)]
pub enum TextLayoutError {
    InvalidMaxLines(u8),
    InvalidWidth,
    InvalidFontScale,
}

impl TextSpec {
    /// One line of `role` text, starting at the left and centred vertically.
    pub fn single_line(role: TextRole, overflow: TextOverflow) -> (r: Self)
        ensures
            r == (TextSpec {
                role,
                overflow,
                horizontal_alignment: HorizontalTextAlignment::Start,
                vertical_alignment: VerticalTextAlignment::Centre,
                max_lines: 1,
            }),
    {
        TextSpec {
            role,
            overflow,
            horizontal_alignment: HorizontalTextAlignment::Start,
            vertical_alignment: VerticalTextAlignment::Centre,
            max_lines: 1,
        }
    }

    /// The spec itself when it declares between one and eight lines.
    pub fn validate(self) -> (r: Result<Self, TextLayoutError>)
        ensures
            1 <= self.max_lines <= MAX_TEXT_LINES ==> r == Ok::<TextSpec, TextLayoutError>(self),
            !(1 <= self.max_lines <= MAX_TEXT_LINES) ==> r == Err::<TextSpec, TextLayoutError>(
                TextLayoutError::InvalidMaxLines(self.max_lines),
            ),
    {
        if self.max_lines < 1 || self.max_lines > MAX_TEXT_LINES {
            return Err(TextLayoutError::InvalidMaxLines(self.max_lines));
        }
        Ok(self)
    }
}

/// The kind of component that owns a text.
#[derive(Clone, Copy, Debug, PartialEq, Eq, PartialOrd, Ord, Structural)]
pub enum TextComponentKind {
    DockTabStrip,
    DockTab,
    ActionButton,
    PropertyRow,
    ResultRow,
    StatusBadge,
    ThumbnailCell,
    DiagnosticRow,
    SectionHeading,
    ContentLabel,
    GalleryHeading,
    TextSample,
}

/// One text-owning component instance.
#[derive(Clone, Copy, Debug, PartialEq, Eq, PartialOrd, Ord, Structural)]
pub struct TextComponentId {
    pub kind: TextComponentKind,
    pub instance: u64,
}

impl TextComponentId {
    pub fn new(kind: TextComponentKind, instance: u64) -> (r: Self)
        ensures
            r == (TextComponentId { kind, instance }),
    {
        TextComponentId { kind, instance }
    }
}

/// A structural problem the text audit found.
#[derive(Clone, Copy, Debug, PartialEq, Eq, Structural)]
pub enum TextAuditFinding {
    InvalidUsefulBounds { component_id: TextComponentId },
    TextOutsideAllocation { component_id: TextComponentId },
    TextOutsideClip { component_id: TextComponentId },
    UnexpectedLineCount { component_id: TextComponentId },
    UndeclaredTruncation { component_id: TextComponentId },
    AlignmentDeviation { component_id: TextComponentId },
    OverlappingSiblingText { first: TextComponentId, second: TextComponentId },
}

/// Categories of text outside the structural audit; they are not failures.
#[derive(Clone, Copy, Debug, PartialEq, Eq, PartialOrd, Ord, Structural)]
pub enum TextExclusion {
    /// Ordinary labels, headings and hover text are not enumerated.
    OrdinaryEguiLabels,
    NativeComboBoxText,
    NativeRadioButtonText,
    NativeSliderText,
    NativeSelectableText,
}

/// What one pass of the text audit covered.
#[derive(Clone, Debug, PartialEq, Eq)]
pub struct TextAuditCoverage {
    /// Distinct components with measured text observations.
    pub measured_components: usize,
    /// Distinct submitted components, failed visible fallbacks included.
    pub attempted_components: usize,
    pub successful_components: usize,
    pub failed_components: usize,
    /// Native controls recorded in the pass.
    pub native_text_controls: usize,
    /// Native controls whose internal text was measured.
    pub observed_native_controls: usize,
    /// Ordinary labels always; native categories when such controls were
    /// recorded.
    pub excluded_categories: Vec<TextExclusion>,
}

impl Default for TextAuditCoverage {
    fn default() -> (r: Self)
        ensures
            r.measured_components == 0,
            r.attempted_components == 0,
            r.successful_components == 0,
            r.failed_components == 0,
            r.native_text_controls == 0,
            r.observed_native_controls == 0,
            r.excluded_categories@ == seq![TextExclusion::OrdinaryEguiLabels],
    {
        let mut excluded_categories: Vec<TextExclusion> = Vec::new();
        excluded_categories.push(TextExclusion::OrdinaryEguiLabels);
        proof {
            assert(excluded_categories@ =~= seq![TextExclusion::OrdinaryEguiLabels]);
        }
        TextAuditCoverage {
            measured_components: 0,
            attempted_components: 0,
            successful_components: 0,
            failed_components: 0,
            native_text_controls: 0,
            observed_native_controls: 0,
            excluded_categories,
        }
    }
}

/// A native widget whose internal text the audit does not measure.
#[derive(Clone, Copy, Debug, PartialEq, Eq, Structural)]
pub enum NativeTextControlKind {
    ComboBox,
    RadioButton,
    Slider,
    Selectable,
}

/// The exclusion category of a native control's text.
pub open spec fn exclusion_of(kind: NativeTextControlKind) -> TextExclusion {
    match kind {
        NativeTextControlKind::ComboBox => TextExclusion::NativeComboBoxText,
        NativeTextControlKind::RadioButton => TextExclusion::NativeRadioButtonText,
        NativeTextControlKind::Slider => TextExclusion::NativeSliderText,
        NativeTextControlKind::Selectable => TextExclusion::NativeSelectableText,
    }
}

impl NativeTextControlKind {
    /// The exclusion category of this control's text.
    pub fn exclusion(self) -> (r: TextExclusion)
        ensures
            r == exclusion_of(self),
    {
        match self {
            NativeTextControlKind::ComboBox => TextExclusion::NativeComboBoxText,
            NativeTextControlKind::RadioButton => TextExclusion::NativeRadioButtonText,
            NativeTextControlKind::Slider => TextExclusion::NativeSliderText,
            NativeTextControlKind::Selectable => TextExclusion::NativeSelectableText,
        }
    }
}

/// What one layout pass recorded beside the text observations: how many
/// distinct native text controls it met, the exclusions of their kinds (in
/// ascending order, each once), and each measured component with whether
/// its layout failed.
pub struct PassInventory {
    pub native_text_controls: usize,
    pub exclusions: Vec<TextExclusion>,
    pub components: Vec<(TextComponentId, bool)>,
}

/// The components of `entries`, only those recorded as failed where
/// `only_failed`.
pub open spec fn components_in(entries: Seq<(TextComponentId, bool)>, only_failed: bool) -> Set<TextComponentId> {
    Set::new(
        |c: TextComponentId|
            exists|i: int| 0 <= i < entries.len() && entries[i].0 == c && (!only_failed || entries[i].1),
    )
}

/// Adds to `into` each component of `entries` it lacks, only those recorded
/// as failed where `only_failed`.
fn add_distinct(entries: &Vec<(TextComponentId, bool)>, only_failed: bool, into: &mut Vec<TextComponentId>)
    requires
        old(into)@.no_duplicates(),
    ensures
        final(into)@.no_duplicates(),
        forall|c: TextComponentId|
            #[trigger] final(into)@.contains(c) <==> (old(into)@.contains(c) || components_in(entries@, only_failed).contains(c)),
{
    let ghost start = into@;
    let mut i: usize = 0;
    while i < entries.len()
        invariant
            0 <= i <= entries.len(),
            into@.no_duplicates(),
            forall|c: TextComponentId|
                #[trigger] into@.contains(c) <==> (start.contains(c) || components_in(entries@.take(i as int), only_failed).contains(c)),
        decreases entries.len() - i,
    {
        let (component, failed) = entries[i];
        let ghost before = into@;
        if !only_failed || failed {
            let mut present = false;
            let mut j: usize = 0;
            while j < into.len()
                invariant
                    before == into@,
                    0 <= j <= into.len(),
                    present == exists|k: int| 0 <= k < j && into@[k] == component,
                decreases into.len() - j,
            {
                if into[j] == component {
                    present = true;
                }
                j = j + 1;
            }
            if !present {
                into.push(component);
                proof {
                    assert forall|p: int, q: int| 0 <= p < q < into@.len() implies into@[p] != into@[q] by {
                        if q == into@.len() - 1 && into@[p] == into@[q] {
                            assert(before[p] == component);
                        }
                    }
                }
            }
        }
        proof {
            let now = into@;
            assert(entries@.take(i + 1) =~= entries@.take(i as int).push(entries@[i as int]));
            assert forall|c: TextComponentId| #[trigger] now.contains(c) <==> (start.contains(c)
                || components_in(entries@.take(i + 1), only_failed).contains(c)) by {
                let longer = entries@.take(i + 1);
                let shorter = entries@.take(i as int);
                if components_in(shorter, only_failed).contains(c) {
                    let k = choose|k: int| 0 <= k < shorter.len() && shorter[k].0 == c && (!only_failed || shorter[k].1);
                    assert(longer[k] == shorter[k]);
                }
                if components_in(longer, only_failed).contains(c) {
                    let k = choose|k: int| 0 <= k < longer.len() && longer[k].0 == c && (!only_failed || longer[k].1);
                    if k < i {
                        assert(shorter[k] == longer[k]);
                        assert(components_in(shorter, only_failed).contains(c));
                    } else {
                        assert(c == component);
                    }
                }
                if now.contains(c) && !before.contains(c) {
                    assert(c == component);
                    assert(longer[i as int] == entries@[i as int]);
                    assert(components_in(longer, only_failed).contains(c));
                }
                if before.contains(c) {
                    let k = choose|k: int| 0 <= k < before.len() && before[k] == c;
                    assert(now[k] == c);
                }
                if c == component && (!only_failed || failed) && !before.contains(c) {
                    assert(now[now.len() - 1] == c);
                }
                if c == component && (!only_failed || failed) && before.contains(c) {
                    assert(now.contains(c));
                }
            }
        }
        i = i + 1;
    }
    proof {
        assert(entries@.take(entries.len() as int) =~= entries@);
    }
}

/// The coverage of one pass: the distinct components of the observations
/// are the measured ones; with the pass's inventory, the attempted ones are
/// those it recorded or observed, failed where either records a failure,
/// and its native controls and their exclusions count; without it, the
/// attempted ones are the measured ones, failed where an observation
/// failed. No native control's text is measured.
pub fn text_audit_coverage(
    observations: &Vec<(TextComponentId, bool)>,
    inventory: Option<&PassInventory>,
) -> (r: TextAuditCoverage)
    ensures
        r.measured_components == components_in(observations@, false).len(),
        r.observed_native_controls == 0,
        r.successful_components == r.attempted_components - r.failed_components,
        match inventory {
            None => {
                &&& r.attempted_components == r.measured_components
                &&& r.failed_components == components_in(observations@, true).len()
                &&& r.native_text_controls == 0
                &&& r.excluded_categories@ == seq![TextExclusion::OrdinaryEguiLabels]
            },
            Some(pass) => {
                &&& r.attempted_components == components_in(pass.components@, false).union(
                    components_in(observations@, false),
                ).len()
                &&& r.failed_components == components_in(pass.components@, true).union(
                    components_in(observations@, true),
                ).len()
                &&& r.native_text_controls == pass.native_text_controls
                &&& r.excluded_categories@ == seq![TextExclusion::OrdinaryEguiLabels] + pass.exclusions@
            },
        },
{
    let mut measured: Vec<TextComponentId> = Vec::new();
    add_distinct(observations, false, &mut measured);
    let mut attempted: Vec<TextComponentId> = Vec::new();
    let mut failed: Vec<TextComponentId> = Vec::new();
    let mut native_text_controls: usize = 0;
    let mut excluded_categories: Vec<TextExclusion> = Vec::new();
    excluded_categories.push(TextExclusion::OrdinaryEguiLabels);
    let ghost attempted_set: Set<TextComponentId>;
    let ghost failed_set: Set<TextComponentId>;
    match inventory {
        None => {
            add_distinct(observations, false, &mut attempted);
            add_distinct(observations, true, &mut failed);
            proof {
                attempted_set = components_in(observations@, false);
                failed_set = components_in(observations@, true);
            }
        },
        Some(pass) => {
            add_distinct(&pass.components, false, &mut attempted);
            add_distinct(observations, false, &mut attempted);
            add_distinct(&pass.components, true, &mut failed);
            add_distinct(observations, true, &mut failed);
            native_text_controls = pass.native_text_controls;
            let mut k: usize = 0;
            while k < pass.exclusions.len()
                invariant
                    0 <= k <= pass.exclusions.len(),
                    excluded_categories@ == seq![TextExclusion::OrdinaryEguiLabels] + pass.exclusions@.take(k as int),
                decreases pass.exclusions.len() - k,
            {
                excluded_categories.push(pass.exclusions[k]);
                proof {
                    assert(pass.exclusions@.take(k + 1) =~= pass.exclusions@.take(k as int).push(pass.exclusions@[k as int]));
                }
                k = k + 1;
            }
            proof {
                assert(pass.exclusions@.take(pass.exclusions.len() as int) =~= pass.exclusions@);
                attempted_set = components_in(pass.components@, false).union(components_in(observations@, false));
                failed_set = components_in(pass.components@, true).union(components_in(observations@, true));
            }
        },
    }
    proof {
        if inventory is None {
            assert(excluded_categories@ =~= seq![TextExclusion::OrdinaryEguiLabels]);
        }
        measured@.unique_seq_to_set();
        attempted@.unique_seq_to_set();
        failed@.unique_seq_to_set();
        assert(measured@.to_set() =~= components_in(observations@, false));
        assert(attempted@.to_set() =~= attempted_set);
        assert(failed@.to_set() =~= failed_set);
        assert(failed_set.subset_of(attempted_set)) by {
            assert forall|c: TextComponentId| failed_set.contains(c) implies attempted_set.contains(c) by {
                if components_in(observations@, true).contains(c) {
                    let i = choose|i: int| 0 <= i < observations@.len() && observations@[i].0 == c && observations@[i].1;
                    assert(components_in(observations@, false).contains(c));
                }
                if let Some(pass) = inventory {
                    if components_in(pass.components@, true).contains(c) {
                        let i = choose|i: int| 0 <= i < pass.components@.len() && pass.components@[i].0 == c && pass.components@[i].1;
                        assert(components_in(pass.components@, false).contains(c));
                    }
                }
            }
        }
        vstd::set_lib::lemma_len_subset(failed_set, attempted_set);
    }
    let attempted_components = attempted.len();
    let failed_components = failed.len();
    TextAuditCoverage {
        measured_components: measured.len(),
        attempted_components,
        successful_components: attempted_components - failed_components,
        failed_components,
        native_text_controls,
        observed_native_controls: 0,
        excluded_categories,
    }
}

} // verus!
