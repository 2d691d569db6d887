//! Stable semantic identities of interface nodes and actions, the audit of a
//! semantic snapshot, and what the semantic audits report.
use vstd::prelude::*;

use crate::actions::ActionKey;
use crate::ids::{AnnotationId, DockNodeId, PaneId, ResultId};
use crate::runtime::TileKey;
use crate::strings::{decimal, decimal_chars, owned, push_chars, push_str, string_from_chars};

verus! {

/// The stable identity of an interface node.
#[derive(Clone, Debug, PartialEq, Eq, PartialOrd, Ord, Hash)]
pub struct SemanticUiId(pub String);

/// `prefix` followed by the decimal digits of `n`.
pub open spec fn numbered(prefix: Seq<char>, n: nat) -> Seq<char> {
    prefix + decimal(n)
}

fn numbered_id(prefix: &str, n: u64) -> (r: SemanticUiId)
    ensures
        r.0@ == numbered(prefix@, n as nat),
{
    let mut text: Vec<char> = Vec::new();
    push_str(&mut text, prefix);
    let digits = decimal_chars(n);
    push_chars(&mut text, &digits);
    SemanticUiId(string_from_chars(&text))
}

impl SemanticUiId {
    pub fn new(value: &str) -> (r: Self)
        ensures
            r.0@ == value@,
    {
        SemanticUiId(owned(value))
    }

    /// The application's root node.
    pub fn root() -> (r: Self)
        ensures
            r.0@ == "application"@,
    {
        SemanticUiId::new("application")
    }

    /// The node of a pane.
    pub fn pane(pane: PaneId) -> (r: Self)
        ensures
            r.0@ == numbered("pane."@, pane.0 as nat),
    {
        numbered_id("pane.", pane.0 as u64)
    }

    /// The dock tab of a pane.
    pub fn tab(pane: PaneId) -> (r: Self)
        ensures
            r.0@ == numbered("polyorama.dock.tab."@, pane.0 as nat),
    {
        numbered_id("polyorama.dock.tab.", pane.0 as u64)
    }

    /// The splitter of a dock split node.
    pub fn splitter(node: DockNodeId) -> (r: Self)
        ensures
            r.0@ == numbered("polyorama.dock.splitter."@, node.0 as nat),
    {
        numbered_id("polyorama.dock.splitter.", node.0)
    }
}

impl Default for SemanticUiId {
    fn default() -> (r: Self)
        ensures
            r.0@ == "application"@,
    {
        SemanticUiId::root()
    }
}

/// The stable identity of an action kept by semantic snapshots.
#[derive(Clone, Debug, PartialEq, Eq, PartialOrd, Ord, Hash)]
pub struct SemanticActionId(pub String);

impl SemanticActionId {
    /// The identity of the action with `stable_id`.
    pub fn from_stable_id(stable_id: &str) -> (r: Self)
        ensures
            r.0@ == stable_id@,
    {
        SemanticActionId(owned(stable_id))
    }

    /// The identity of `action`: its stable ID.
    pub fn from_action<A: ActionKey>(action: A) -> (r: Self)
        ensures
            exists|id: &'static str| call_ensures(A::stable_id, (action,), id) && r.0@ == id@,
    {
        let stable_id = A::stable_id;
        let id = stable_id(action);
        SemanticActionId::from_stable_id(id)
    }

    pub fn as_str(&self) -> (r: &str)
        ensures
            r@ == self.0@,
    {
        self.0.as_str()
    }
}

/// The semantic identity of one value of a preference field: the parent's
/// identity, `.preferences.`, the field, `.` and the value.
pub open spec fn preference_text(parent: Seq<char>, field: Seq<char>, value: Seq<char>) -> Seq<char> {
    parent + ".preferences."@ + field + "."@ + value
}

/// The semantic identity of one value of a preference field under `parent`.
pub fn preference_semantic_id(parent: &SemanticUiId, field: &str, value: &str) -> (r: SemanticUiId)
    ensures
        r.0@ == preference_text(parent.0@, field@, value@),
{
    let mut text: Vec<char> = Vec::new();
    push_str(&mut text, parent.0.as_str());
    push_str(&mut text, ".preferences.");
    push_str(&mut text, field);
    push_str(&mut text, ".");
    push_str(&mut text, value);
    proof {
        assert(text@ =~= preference_text(parent.0@, field@, value@));
    }
    SemanticUiId(string_from_chars(&text))
}

/// What an interface node is to assistive technology.
#[derive(Clone, Copy, Debug, PartialEq, Eq, PartialOrd, Ord, Structural)]
pub enum UiRole {
    Application,
    ApplicationBar,
    Toolbar,
    Button,
    RadioButton,
    ComboBox,
    Slider,
    Tab,
    Splitter,
    Pane,
    Viewport,
    ScrollArea,
    ResultRow,
    ThumbnailCell,
    Status,
    Section,
}

/// The domain object an interface node stands for.
#[derive(Clone, Copy, Debug, PartialEq, Eq, Structural)]
pub enum DomainReference {
    Pane(PaneId),
    DockNode(DockNodeId),
    Result(ResultId),
    Annotation(AnnotationId),
    Thumbnail(TileKey),
}

/// A problem the semantic snapshot audit found.
#[derive(Clone, Debug, PartialEq, Eq)]
pub enum SemanticAuditFinding {
    MissingRoot { id: SemanticUiId },
    DuplicateId { id: SemanticUiId },
    InvalidRect { id: SemanticUiId },
    OutsideRoot { id: SemanticUiId },
    MissingParent { node: SemanticUiId, parent: SemanticUiId },
    EnabledWithDisabledReason { id: SemanticUiId },
}

/// A difference between a semantic node and its accessibility node.
#[derive(Clone, Debug, PartialEq, Eq)]
pub enum AccessKitMismatch {
    MissingNode { id: SemanticUiId },
    DuplicateNode { id: SemanticUiId },
    Role { id: SemanticUiId },
    Name { id: SemanticUiId },
    Enabled { id: SemanticUiId },
    Selected { id: SemanticUiId },
    Description { id: SemanticUiId },
    Checked { id: SemanticUiId },
    ClickAction { id: SemanticUiId },
    AdjustAction { id: SemanticUiId },
    Bounds { id: SemanticUiId },
}

/// What the audit sees of a finding: its kind and the ids it names.
pub enum FindingView {
    MissingRoot(Seq<char>),
    DuplicateId(Seq<char>),
    InvalidRect(Seq<char>),
    OutsideRoot(Seq<char>),
    MissingParent(Seq<char>, Seq<char>),
    EnabledWithDisabledReason(Seq<char>),
}

impl View for SemanticAuditFinding {
    type V = FindingView;

    open spec fn view(&self) -> FindingView {
        match self {
            SemanticAuditFinding::MissingRoot { id } => FindingView::MissingRoot(id.0@),
            SemanticAuditFinding::DuplicateId { id } => FindingView::DuplicateId(id.0@),
            SemanticAuditFinding::InvalidRect { id } => FindingView::InvalidRect(id.0@),
            SemanticAuditFinding::OutsideRoot { id } => FindingView::OutsideRoot(id.0@),
            SemanticAuditFinding::MissingParent { node, parent } => FindingView::MissingParent(node.0@, parent.0@),
            SemanticAuditFinding::EnabledWithDisabledReason { id } => FindingView::EnabledWithDisabledReason(id.0@),
        }
    }
}

/// One node of a semantic snapshot as the audit reads it: its id and its
/// parent's, whether its rectangle has a positive area, whether it lies
/// within the root's rectangle (with a tolerance of one point), whether it
/// is enabled, and whether it gives a reason for being disabled.
pub struct AuditNode {
    pub id: SemanticUiId,
    pub parent: Option<SemanticUiId>,
    pub rect_positive: bool,
    pub inside_root: bool,
    pub enabled: bool,
    pub has_disabled_reason: bool,
}

pub struct AuditNodeView {
    pub id: Seq<char>,
    pub parent: Option<Seq<char>>,
    pub rect_positive: bool,
    pub inside_root: bool,
    pub enabled: bool,
    pub has_disabled_reason: bool,
}

impl View for AuditNode {
    type V = AuditNodeView;

    open spec fn view(&self) -> AuditNodeView {
        AuditNodeView {
            id: self.id.0@,
            parent: match self.parent {
                Some(parent) => Some(parent.0@),
                None => None,
            },
            rect_positive: self.rect_positive,
            inside_root: self.inside_root,
            enabled: self.enabled,
            has_disabled_reason: self.has_disabled_reason,
        }
    }
}

pub open spec fn audit_node_views(nodes: Seq<AuditNode>) -> Seq<AuditNodeView> {
    nodes.map_values(|n: AuditNode| n@)
}

pub open spec fn finding_views(findings: Seq<SemanticAuditFinding>) -> Seq<FindingView> {
    findings.map_values(|f: SemanticAuditFinding| f@)
}

/// Some node has the id `id`.
pub open spec fn has_node(nodes: Seq<AuditNodeView>, id: Seq<char>) -> bool {
    exists|j: int| 0 <= j < nodes.len() && nodes[j].id == id
}

/// The findings of the node at `k`, in the order the audit reports them: a
/// duplicate of an earlier id, an empty rectangle or else one outside the
/// root, a parent that is not in the snapshot, and a disabled reason on an
/// enabled node.
pub open spec fn node_findings(nodes: Seq<AuditNodeView>, k: int) -> Seq<FindingView> {
    let node = nodes[k];
    let duplicate = if exists|j: int| 0 <= j < k && nodes[j].id == node.id {
        seq![FindingView::DuplicateId(node.id)]
    } else {
        Seq::empty()
    };
    let geometry = if !node.rect_positive {
        seq![FindingView::InvalidRect(node.id)]
    } else if !node.inside_root {
        seq![FindingView::OutsideRoot(node.id)]
    } else {
        Seq::empty()
    };
    let parent = match node.parent {
        Some(parent) => if !has_node(nodes, parent) {
            seq![FindingView::MissingParent(node.id, parent)]
        } else {
            Seq::empty()
        },
        None => Seq::empty(),
    };
    let reason = if node.enabled && node.has_disabled_reason {
        seq![FindingView::EnabledWithDisabledReason(node.id)]
    } else {
        Seq::empty()
    };
    duplicate + geometry + parent + reason
}

/// The findings of the first `k` nodes, node by node.
pub open spec fn findings_upto(nodes: Seq<AuditNodeView>, k: int) -> Seq<FindingView>
    decreases k,
{
    if k <= 0 {
        Seq::empty()
    } else {
        findings_upto(nodes, k - 1) + node_findings(nodes, k - 1)
    }
}

/// The position of the first node with the id `id`, from `k` on.
pub open spec fn node_position(nodes: Seq<AuditNodeView>, id: Seq<char>, k: int) -> Option<int>
    decreases nodes.len() - k,
{
    if k < 0 || k >= nodes.len() {
        None
    } else if nodes[k].id == id {
        Some(k)
    } else {
        node_position(nodes, id, k + 1)
    }
}

/// What the audit of a snapshot with root `root` reports: a missing root
/// alone; else an empty root rectangle, then each node's findings.
pub open spec fn snapshot_findings(root: Seq<char>, nodes: Seq<AuditNodeView>) -> Seq<FindingView> {
    match node_position(nodes, root, 0) {
        None => seq![FindingView::MissingRoot(root)],
        Some(r) => (if !nodes[r].rect_positive {
            seq![FindingView::InvalidRect(nodes[r].id)]
        } else {
            Seq::empty()
        }) + findings_upto(nodes, nodes.len() as int),
    }
}

/// A copy of an id.
fn copy_id(id: &SemanticUiId) -> (r: SemanticUiId)
    ensures
        r.0@ == id.0@,
{
    SemanticUiId(id.0.clone())
}

/// The position of the first node with the id `id`.
fn find_node(nodes: &Vec<AuditNode>, id: &SemanticUiId) -> (r: Option<usize>)
    ensures
        match r {
            Some(k) => k < nodes.len() && node_position(audit_node_views(nodes@), id.0@, 0) == Some(k as int),
            None => node_position(audit_node_views(nodes@), id.0@, 0) is None,
        },
        r is None <==> !has_node(audit_node_views(nodes@), id.0@),
{
    let ghost views = audit_node_views(nodes@);
    let mut k: usize = 0;
    while k < nodes.len()
        invariant
            views == audit_node_views(nodes@),
            0 <= k <= nodes.len(),
            node_position(views, id.0@, 0) == node_position(views, id.0@, k as int),
            forall|j: int| 0 <= j < k ==> views[j].id != id.0@,
        decreases nodes.len() - k,
    {
        if crate::strings::str_equal(nodes[k].id.0.as_str(), id.0.as_str()) {
            assert(views[k as int].id == id.0@);
            return Some(k);
        }
        k = k + 1;
    }
    None
}

/// Whether a node before `k` has the id of the node at `k`.
fn seen_before(nodes: &Vec<AuditNode>, k: usize) -> (r: bool)
    requires
        k < nodes.len(),
    ensures
        r == exists|j: int| 0 <= j < k && audit_node_views(nodes@)[j].id == audit_node_views(nodes@)[k as int].id,
{
    let ghost views = audit_node_views(nodes@);
    let mut j: usize = 0;
    while j < k
        invariant
            views == audit_node_views(nodes@),
            k < nodes.len(),
            0 <= j <= k,
            forall|i: int| 0 <= i < j ==> views[i].id != views[k as int].id,
        decreases k - j,
    {
        if crate::strings::str_equal(nodes[j].id.0.as_str(), nodes[k].id.0.as_str()) {
            assert(views[j as int].id == views[k as int].id);
            return true;
        }
        j = j + 1;
    }
    false
}

/// The findings of the node at `k`.
fn audit_node(nodes: &Vec<AuditNode>, k: usize) -> (r: Vec<SemanticAuditFinding>)
    requires
        k < nodes.len(),
    ensures
        finding_views(r@) == node_findings(audit_node_views(nodes@), k as int),
{
    let ghost views = audit_node_views(nodes@);
    let node = &nodes[k];
    assert(views[k as int] == node@);
    let mut findings: Vec<SemanticAuditFinding> = Vec::new();
    if seen_before(nodes, k) {
        findings.push(SemanticAuditFinding::DuplicateId { id: copy_id(&node.id) });
    }
    let ghost after_duplicate = finding_views(findings@);
    if !node.rect_positive {
        findings.push(SemanticAuditFinding::InvalidRect { id: copy_id(&node.id) });
    } else if !node.inside_root {
        findings.push(SemanticAuditFinding::OutsideRoot { id: copy_id(&node.id) });
    }
    let ghost after_geometry = finding_views(findings@);
    if let Some(parent) = &node.parent {
        if find_node(nodes, parent).is_none() {
            findings.push(SemanticAuditFinding::MissingParent { node: copy_id(&node.id), parent: copy_id(parent) });
        }
    }
    let ghost after_parent = finding_views(findings@);
    if node.enabled && node.has_disabled_reason {
        findings.push(SemanticAuditFinding::EnabledWithDisabledReason { id: copy_id(&node.id) });
    }
    proof {
        let n = views[k as int];
        let duplicate = if exists|j: int| 0 <= j < k && views[j].id == n.id {
            seq![FindingView::DuplicateId(n.id)]
        } else {
            Seq::empty()
        };
        let geometry = if !n.rect_positive {
            seq![FindingView::InvalidRect(n.id)]
        } else if !n.inside_root {
            seq![FindingView::OutsideRoot(n.id)]
        } else {
            Seq::empty()
        };
        let parent = match n.parent {
            Some(parent) => if !has_node(views, parent) {
                seq![FindingView::MissingParent(n.id, parent)]
            } else {
                Seq::empty()
            },
            None => Seq::empty(),
        };
        let reason = if n.enabled && n.has_disabled_reason {
            seq![FindingView::EnabledWithDisabledReason(n.id)]
        } else {
            Seq::empty()
        };
        assert(after_duplicate =~= duplicate);
        assert(after_geometry =~= duplicate + geometry);
        assert(after_parent =~= duplicate + geometry + parent);
        assert(finding_views(findings@) =~= duplicate + geometry + parent + reason);
    }
    findings
}

/// Audits a semantic snapshot with root `root`: a missing root is the one
/// finding; otherwise an empty root rectangle, then for each node in order a
/// repeated id, an empty rectangle or one outside the root, a parent missing
/// from the snapshot, and a disabled reason on an enabled node.
pub fn audit_snapshot(root: &SemanticUiId, nodes: &Vec<AuditNode>) -> (r: Vec<SemanticAuditFinding>)
    ensures
        finding_views(r@) == snapshot_findings(root.0@, audit_node_views(nodes@)),
{
    let ghost views = audit_node_views(nodes@);
    let mut findings: Vec<SemanticAuditFinding> = Vec::new();
    let root_index = match find_node(nodes, root) {
        None => {
            findings.push(SemanticAuditFinding::MissingRoot { id: copy_id(root) });
            assert(finding_views(findings@) =~= seq![FindingView::MissingRoot(root.0@)]);
            return findings;
        },
        Some(k) => k,
    };
    if !nodes[root_index].rect_positive {
        findings.push(SemanticAuditFinding::InvalidRect { id: copy_id(&nodes[root_index].id) });
    }
    let ghost head = finding_views(findings@);
    proof {
        assert(views[root_index as int] == nodes@[root_index as int]@);
        if nodes@[root_index as int].rect_positive {
            assert(head =~= Seq::<FindingView>::empty());
        } else {
            assert(head =~= seq![FindingView::InvalidRect(views[root_index as int].id)]);
        }
        assert(findings_upto(views, 0) =~= Seq::<FindingView>::empty());
        assert(head =~= head + findings_upto(views, 0));
    }
    let mut k: usize = 0;
    while k < nodes.len()
        invariant
            views == audit_node_views(nodes@),
            0 <= k <= nodes.len(),
            finding_views(findings@) == head + findings_upto(views, k as int),
        decreases nodes.len() - k,
    {
        let ghost before = finding_views(findings@);
        let mut more = audit_node(nodes, k);
        let ghost added = finding_views(more@);
        let ghost old_findings = findings@;
        let ghost old_more = more@;
        findings.append(&mut more);
        proof {
            assert(findings@ =~= old_findings + old_more);
            assert(finding_views(findings@) =~= before + added);
            assert(findings_upto(views, k + 1) == findings_upto(views, k as int) + node_findings(views, k as int));
            assert(finding_views(findings@) =~= head + findings_upto(views, k + 1));
        }
        k = k + 1;
    }
    findings
}

} // verus!
