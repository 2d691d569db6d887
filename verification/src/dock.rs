//! The canonical dock tree of a workspace and its rearrangement rules.
//!
//! A split stores the extent of its first child in ten-thousandths of the
//! parent's extent (`fraction`), kept within `MIN_SPLIT_FRACTION ..=
//! MAX_SPLIT_FRACTION` by `normalise`.
use std::collections::BTreeSet;
use vstd::prelude::*;

use crate::ids::{DockNodeId, PaneId};
use crate::strings::{concat_chars, decimal, decimal_chars, owned};

verus! {

/// The persisted layout schema that this library reads and writes.
pub const LAYOUT_SCHEMA_VERSION: u32 = 2;

/// Split fractions are counted in this many parts of the parent's extent.
pub const FRACTION_SCALE: u32 = 10_000;

/// The smallest share of a split that either child keeps.
pub const MIN_SPLIT_FRACTION: u32 = 1_000;

/// The largest share of a split that the first child takes.
pub const MAX_SPLIT_FRACTION: u32 = 9_000;

/// The share of a split created by a side drop.
pub const EVEN_SPLIT_FRACTION: u32 = 5_000;

#[derive(Clone, Copy, Debug, PartialEq, Eq, Structural)]
pub enum SplitAxis {
    Horizontal,
    Vertical,
}

#[derive(Clone, Copy, Debug, PartialEq, Eq, Structural)]
pub enum DockDrop {
    Tab,
    Left,
    Right,
    Top,
    Bottom,
}

/// A node of the dock tree: a split of two subtrees, or a group of tabs.
#[derive(Debug, PartialEq)]
pub enum DockNode {
    Split {
        id: DockNodeId,
        axis: SplitAxis,
        fraction: u32,
        first: Box<DockNode>,
        second: Box<DockNode>,
    },
    Tabs {
        id: DockNodeId,
        tabs: Vec<PaneId>,
        active: usize,
    },
}

/// The mathematical model of a dock tree.
pub enum DockTree {
    Split {
        id: DockNodeId,
        axis: SplitAxis,
        fraction: u32,
        first: Box<DockTree>,
        second: Box<DockTree>,
    },
    Tabs {
        id: DockNodeId,
        tabs: Seq<PaneId>,
        active: nat,
    },
}

/// `value` clamped to the permitted split range.
pub open spec fn clamp_fraction(value: u32) -> u32 {
    if value < MIN_SPLIT_FRACTION {
        MIN_SPLIT_FRACTION
    } else if value > MAX_SPLIT_FRACTION {
        MAX_SPLIT_FRACTION
    } else {
        value
    }
}

/// The largest valid index of a tab group of `len` tabs, or zero when empty.
pub open spec fn last_tab_index(len: nat) -> nat {
    if len == 0 {
        0
    } else {
        (len - 1) as nat
    }
}

pub open spec fn min_nat(a: nat, b: nat) -> nat {
    if a <= b {
        a
    } else {
        b
    }
}

/// `i` is the position of the first occurrence of `p` in `s`.
pub open spec fn is_first_index(s: Seq<PaneId>, p: PaneId, i: int) -> bool {
    &&& 0 <= i < s.len()
    &&& s[i] == p
    &&& forall|j: int| 0 <= j < i ==> s[j] != p
}

/// The position of the first occurrence of `p` in `s`.
pub open spec fn first_index(s: Seq<PaneId>, p: PaneId) -> int {
    choose|i: int| is_first_index(s, p, i)
}

impl DockTree {
    pub open spec fn id(self) -> DockNodeId {
        match self {
            DockTree::Split { id, .. } => id,
            DockTree::Tabs { id, .. } => id,
        }
    }

    /// The panes of the tree, in the order of its tab groups from first to second.
    pub open spec fn panes(self) -> Seq<PaneId>
        decreases self,
    {
        match self {
            DockTree::Split { first, second, .. } => first.panes() + second.panes(),
            DockTree::Tabs { tabs, .. } => tabs,
        }
    }

    /// The node IDs of the tree, in pre-order.
    pub open spec fn node_ids(self) -> Seq<DockNodeId>
        decreases self,
    {
        match self {
            DockTree::Split { id, first, second, .. } => seq![id] + first.node_ids()
                + second.node_ids(),
            DockTree::Tabs { id, .. } => seq![id],
        }
    }

    pub open spec fn node_count(self) -> nat
        decreases self,
    {
        match self {
            DockTree::Split { first, second, .. } => 1 + first.node_count() + second.node_count(),
            DockTree::Tabs { .. } => 1,
        }
    }

    /// The active pane of each tab group whose active index is in range.
    pub open spec fn active_panes(self) -> Seq<PaneId>
        decreases self,
    {
        match self {
            DockTree::Split { first, second, .. } => first.active_panes()
                + second.active_panes(),
            DockTree::Tabs { tabs, active, .. } => if active < tabs.len() {
                seq![tabs[active as int]]
            } else {
                Seq::empty()
            },
        }
    }

    pub open spec fn contains_pane(self, pane: PaneId) -> bool {
        self.panes().contains(pane)
    }

    /// A tab group without tabs.
    pub open spec fn is_empty(self) -> bool {
        match self {
            DockTree::Tabs { tabs, .. } => tabs.len() == 0,
            DockTree::Split { .. } => false,
        }
    }

    /// Every fraction clamped and every active index brought in range.
    pub open spec fn normalised(self) -> DockTree
        decreases self,
    {
        match self {
            DockTree::Split { id, axis, fraction, first, second } => DockTree::Split {
                id,
                axis,
                fraction: clamp_fraction(fraction),
                first: Box::new(first.normalised()),
                second: Box::new(second.normalised()),
            },
            DockTree::Tabs { id, tabs, active } => DockTree::Tabs {
                id,
                tabs,
                active: min_nat(active, last_tab_index(tabs.len())),
            },
        }
    }

    /// The tree with the first occurrence of `pane` removed from its tab group.
    pub open spec fn without_pane(self, pane: PaneId) -> DockTree
        decreases self,
    {
        match self {
            DockTree::Split { id, axis, fraction, first, second } => if first.contains_pane(
                pane,
            ) {
                DockTree::Split {
                    id,
                    axis,
                    fraction,
                    first: Box::new(first.without_pane(pane)),
                    second,
                }
            } else if second.contains_pane(pane) {
                DockTree::Split {
                    id,
                    axis,
                    fraction,
                    first,
                    second: Box::new(second.without_pane(pane)),
                }
            } else {
                self
            },
            DockTree::Tabs { id, tabs, active } => if tabs.contains(pane) {
                let remaining = tabs.remove(first_index(tabs, pane));
                DockTree::Tabs {
                    id,
                    tabs: remaining,
                    active: min_nat(active, last_tab_index(remaining.len())),
                }
            } else {
                self
            },
        }
    }

    /// The tree with every empty tab group collapsed into its sibling.
    pub open spec fn pruned(self) -> DockTree
        decreases self,
    {
        match self {
            DockTree::Split { id, axis, fraction, first, second } => {
                let first = first.pruned();
                let second = second.pruned();
                if first.is_empty() {
                    second
                } else if second.is_empty() {
                    first
                } else {
                    DockTree::Split {
                        id,
                        axis,
                        fraction,
                        first: Box::new(first),
                        second: Box::new(second),
                    }
                }
            },
            DockTree::Tabs { .. } => self,
        }
    }

    /// The tree with `pane` dropped onto the tab group holding `target`: as a
    /// new active tab of that group, or as a new group beside it that shares
    /// a new even split.
    pub open spec fn with_pane_at(
        self,
        target: PaneId,
        pane: PaneId,
        drop: DockDrop,
        split_id: DockNodeId,
        tabs_id: DockNodeId,
    ) -> DockTree
        decreases self,
    {
        match self {
            DockTree::Split { id, axis, fraction, first, second } => if first.contains_pane(
                target,
            ) {
                DockTree::Split {
                    id,
                    axis,
                    fraction,
                    first: Box::new(first.with_pane_at(target, pane, drop, split_id, tabs_id)),
                    second,
                }
            } else if second.contains_pane(target) {
                DockTree::Split {
                    id,
                    axis,
                    fraction,
                    first,
                    second: Box::new(second.with_pane_at(target, pane, drop, split_id, tabs_id)),
                }
            } else {
                self
            },
            DockTree::Tabs { id, tabs, active } => if tabs.contains(target) {
                if drop == DockDrop::Tab {
                    DockTree::Tabs { id, tabs: tabs.push(pane), active: tabs.len() }
                } else {
                    let new = DockTree::Tabs { id: tabs_id, tabs: seq![pane], active: 0 };
                    let old = self;
                    let axis = if drop == DockDrop::Left || drop == DockDrop::Right {
                        SplitAxis::Horizontal
                    } else {
                        SplitAxis::Vertical
                    };
                    let new_first = drop == DockDrop::Left || drop == DockDrop::Top;
                    DockTree::Split {
                        id: split_id,
                        axis,
                        fraction: EVEN_SPLIT_FRACTION,
                        first: Box::new(
                            if new_first {
                                new
                            } else {
                                old
                            },
                        ),
                        second: Box::new(
                            if new_first {
                                old
                            } else {
                                new
                            },
                        ),
                    }
                }
            } else {
                self
            },
        }
    }

    /// The tree holds a split with ID `target`.
    pub open spec fn has_split(self, target: DockNodeId) -> bool
        decreases self,
    {
        match self {
            DockTree::Split { id, first, second, .. } => id == target || first.has_split(target)
                || second.has_split(target),
            DockTree::Tabs { .. } => false,
        }
    }

    /// The fraction of the first split with ID `target`, in pre-order.
    pub open spec fn split_fraction(self, target: DockNodeId) -> Option<u32>
        decreases self,
    {
        match self {
            DockTree::Split { id, fraction, first, second, .. } => if id == target {
                Some(fraction)
            } else if first.has_split(target) {
                first.split_fraction(target)
            } else {
                second.split_fraction(target)
            },
            DockTree::Tabs { .. } => None,
        }
    }

    /// The tree with the first split with ID `target` set to `value`, clamped.
    pub open spec fn with_split_fraction(self, target: DockNodeId, value: u32) -> DockTree
        decreases self,
    {
        match self {
            DockTree::Split { id, axis, fraction, first, second } => if id == target {
                DockTree::Split { id, axis, fraction: clamp_fraction(value), first, second }
            } else if first.has_split(target) {
                DockTree::Split {
                    id,
                    axis,
                    fraction,
                    first: Box::new(first.with_split_fraction(target, value)),
                    second,
                }
            } else if second.has_split(target) {
                DockTree::Split {
                    id,
                    axis,
                    fraction,
                    first,
                    second: Box::new(second.with_split_fraction(target, value)),
                }
            } else {
                self
            },
            DockTree::Tabs { .. } => self,
        }
    }

    /// The tree with the first tab group holding `pane` showing it.
    pub open spec fn with_active(self, pane: PaneId) -> DockTree
        decreases self,
    {
        match self {
            DockTree::Split { id, axis, fraction, first, second } => if first.contains_pane(
                pane,
            ) {
                DockTree::Split {
                    id,
                    axis,
                    fraction,
                    first: Box::new(first.with_active(pane)),
                    second,
                }
            } else if second.contains_pane(pane) {
                DockTree::Split {
                    id,
                    axis,
                    fraction,
                    first,
                    second: Box::new(second.with_active(pane)),
                }
            } else {
                self
            },
            DockTree::Tabs { id, tabs, active } => if tabs.contains(pane) {
                DockTree::Tabs { id, tabs, active: first_index(tabs, pane) as nat }
            } else {
                self
            },
        }
    }
}

impl DockNode {
    /// The mathematical model of this node.
    pub open spec fn model(&self) -> DockTree
        decreases self,
    {
        match self {
            DockNode::Split { id, axis, fraction, first, second } => DockTree::Split {
                id: *id,
                axis: *axis,
                fraction: *fraction,
                first: Box::new((**first).model()),
                second: Box::new((**second).model()),
            },
            DockNode::Tabs { id, tabs, active } => DockTree::Tabs {
                id: *id,
                tabs: tabs@,
                active: *active as nat,
            },
        }
    }
}

impl View for DockNode {
    type V = DockTree;

    open spec fn view(&self) -> DockTree {
        self.model()
    }
}


/// `value` clamped to the permitted split range.
fn clamp_split_fraction(value: u32) -> (r: u32)
    ensures
        r == clamp_fraction(value),
{
    if value < MIN_SPLIT_FRACTION {
        MIN_SPLIT_FRACTION
    } else if value > MAX_SPLIT_FRACTION {
        MAX_SPLIT_FRACTION
    } else {
        value
    }
}

/// The position of the first occurrence of `pane` in `tabs`, if any.
fn position_of(tabs: &Vec<PaneId>, pane: PaneId) -> (r: Option<usize>)
    ensures
        match r {
            Some(i) => is_first_index(tabs@, pane, i as int),
            None => !tabs@.contains(pane),
        },
{
    let mut i: usize = 0;
    while i < tabs.len()
        invariant
            0 <= i <= tabs.len(),
            forall|j: int| 0 <= j < i ==> tabs@[j] != pane,
        decreases tabs.len() - i,
    {
        if tabs[i] == pane {
            return Some(i);
        }
        i = i + 1;
    }
    None
}

proof fn lemma_first_index(s: Seq<PaneId>, p: PaneId, i: int)
    requires
        is_first_index(s, p, i),
    ensures
        first_index(s, p) == i,
{
    let k = first_index(s, p);
    assert(is_first_index(s, p, k));
    if k < i {
        assert(s[k] != p);
    } else if i < k {
        assert(s[i] != p);
    }
}

proof fn first_occurrence(s: Seq<PaneId>, p: PaneId, n: int) -> (i: int)
    requires
        0 <= n <= s.len(),
        exists|j: int| 0 <= j < n && s[j] == p,
    ensures
        is_first_index(s, p, i),
    decreases n,
{
    if exists|j: int| 0 <= j < n - 1 && s[j] == p {
        first_occurrence(s, p, n - 1)
    } else {
        n - 1
    }
}

proof fn lemma_first_index_exists(s: Seq<PaneId>, p: PaneId)
    requires
        s.contains(p),
    ensures
        is_first_index(s, p, first_index(s, p)),
{
    let i = first_occurrence(s, p, s.len() as int);
    assert(is_first_index(s, p, i));
}

impl DockNode {
    pub fn id(&self) -> (r: DockNodeId)
        ensures
            r == self@.id(),
    {
        match self {
            DockNode::Split { id, .. } => *id,
            DockNode::Tabs { id, .. } => *id,
        }
    }

    pub fn node_count(&self) -> (r: usize)
        requires
            self@.node_count() <= usize::MAX,
        ensures
            r == self@.node_count(),
        decreases self,
    {
        match self {
            DockNode::Split { first, second, .. } => {
                let a = first.node_count();
                let b = second.node_count();
                1 + a + b
            },
            DockNode::Tabs { .. } => 1,
        }
    }

    /// Appends the panes of the tree to `output`.
    pub fn pane_ids(&self, output: &mut Vec<PaneId>)
        ensures
            final(output)@ == old(output)@ + self@.panes(),
        decreases self,
    {
        match self {
            DockNode::Split { first, second, .. } => {
                first.pane_ids(output);
                second.pane_ids(output);
                assert(final(output)@ =~= old(output)@ + self@.panes());
            },
            DockNode::Tabs { tabs, .. } => {
                let ghost start = output@;
                let mut i: usize = 0;
                while i < tabs.len()
                    invariant
                        0 <= i <= tabs.len(),
                        output@ =~= start + tabs@.subrange(0, i as int),
                    decreases tabs.len() - i,
                {
                    output.push(tabs[i]);
                    i = i + 1;
                }
                assert(tabs@.subrange(0, tabs@.len() as int) =~= tabs@);
            },
        }
    }

    /// Appends the active pane of each tab group to `output`.
    pub fn active_panes(&self, output: &mut Vec<PaneId>)
        ensures
            final(output)@ == old(output)@ + self@.active_panes(),
        decreases self,
    {
        match self {
            DockNode::Split { first, second, .. } => {
                first.active_panes(output);
                second.active_panes(output);
                assert(final(output)@ =~= old(output)@ + self@.active_panes());
            },
            DockNode::Tabs { tabs, active, .. } => {
                if *active < tabs.len() {
                    output.push(tabs[*active]);
                }
                assert(final(output)@ =~= old(output)@ + self@.active_panes());
            },
        }
    }

    pub fn contains_pane(&self, pane: PaneId) -> (r: bool)
        ensures
            r == self@.contains_pane(pane),
        decreases self,
    {
        broadcast use vstd::seq_lib::group_seq_properties;
        match self {
            DockNode::Split { first, second, .. } => first.contains_pane(pane)
                || second.contains_pane(pane),
            DockNode::Tabs { tabs, .. } => position_of(tabs, pane).is_some(),
        }
    }

    /// Clamps every split fraction and brings every active tab index in range.
    pub fn normalise(&mut self)
        ensures
            final(self)@ == old(self)@.normalised(),
        decreases old(self)@,
    {
        match self {
            DockNode::Split { fraction, first, second, .. } => {
                *fraction = clamp_split_fraction(*fraction);
                first.normalise();
                second.normalise();
            },
            DockNode::Tabs { tabs, active, .. } => {
                let last = if tabs.len() == 0 {
                    0
                } else {
                    tabs.len() - 1
                };
                if *active > last {
                    *active = last;
                }
            },
        }
    }
}


impl DockNode {
    fn empty_tabs() -> (r: DockNode)
        ensures
            r@ == (DockTree::Tabs { id: DockNodeId(0), tabs: Seq::empty(), active: 0 }),
    {
        DockNode::Tabs { id: DockNodeId(0), tabs: Vec::new(), active: 0 }
    }

    fn is_empty(&self) -> (r: bool)
        ensures
            r == self@.is_empty(),
    {
        match self {
            DockNode::Tabs { tabs, .. } => tabs.len() == 0,
            DockNode::Split { .. } => false,
        }
    }

    /// Removes the first occurrence of `pane`; reports whether it was present.
    fn remove_pane(&mut self, pane: PaneId) -> (r: bool)
        ensures
            r == old(self)@.contains_pane(pane),
            final(self)@ == old(self)@.without_pane(pane),
        decreases old(self)@,
    {
        broadcast use vstd::seq_lib::group_seq_properties;
        match self {
            DockNode::Split { first, second, .. } => {
                let removed = first.remove_pane(pane);
                if removed {
                    true
                } else {
                    second.remove_pane(pane)
                }
            },
            DockNode::Tabs { tabs, active, .. } => {
                match position_of(tabs, pane) {
                    Some(index) => {
                        proof {
                            lemma_first_index(tabs@, pane, index as int);
                        }
                        tabs.remove(index);
                        let last = if tabs.len() == 0 {
                            0
                        } else {
                            tabs.len() - 1
                        };
                        if *active > last {
                            *active = last;
                        }
                        true
                    },
                    None => false,
                }
            },
        }
    }

    /// This tree with every empty tab group collapsed into its sibling.
    fn into_pruned(self) -> (r: DockNode)
        ensures
            r@ == self@.pruned(),
        decreases self@,
    {
        match self {
            DockNode::Split { id, axis, fraction, first, second } => {
                let first = (*first).into_pruned();
                let second = (*second).into_pruned();
                if first.is_empty() {
                    second
                } else if second.is_empty() {
                    first
                } else {
                    DockNode::Split {
                        id,
                        axis,
                        fraction,
                        first: Box::new(first),
                        second: Box::new(second),
                    }
                }
            },
            DockNode::Tabs { id, tabs, active } => DockNode::Tabs { id, tabs, active },
        }
    }

    fn prune_empty(&mut self)
        ensures
            final(self)@ == old(self)@.pruned(),
    {
        let mut node = DockNode::empty_tabs();
        std::mem::swap(self, &mut node);
        *self = node.into_pruned();
    }

    /// Drops `pane` onto the tab group holding `target`; reports whether that
    /// group was found.
    fn insert_at(
        &mut self,
        target: PaneId,
        pane: PaneId,
        drop: DockDrop,
        split_id: DockNodeId,
        tabs_id: DockNodeId,
    ) -> (r: bool)
        ensures
            r == old(self)@.contains_pane(target),
            final(self)@ == old(self)@.with_pane_at(target, pane, drop, split_id, tabs_id),
        decreases old(self)@,
    {
        broadcast use vstd::seq_lib::group_seq_properties;
        let ghost before = self@;
        match self {
            DockNode::Split { first, second, .. } => {
                let inserted = first.insert_at(target, pane, drop, split_id, tabs_id);
                if inserted {
                    return true;
                } else {
                    return second.insert_at(target, pane, drop, split_id, tabs_id);
                }
            },
            DockNode::Tabs { tabs, active, .. } => {
                if position_of(tabs, target).is_none() {
                    return false;
                }
                if drop == DockDrop::Tab {
                    tabs.push(pane);
                    *active = tabs.len() - 1;
                    return true;
                }
            },
        }
        assert(self@ == before);
        assert(before is Tabs && before.contains_pane(target) && drop != DockDrop::Tab);
        let mut old = DockNode::Tabs { id: tabs_id, tabs: Vec::new(), active: 0 };
        std::mem::swap(self, &mut old);
        let mut new_tabs = Vec::new();
        new_tabs.push(pane);
        assert(new_tabs@ =~= seq![pane]);
        let new = DockNode::Tabs { id: tabs_id, tabs: new_tabs, active: 0 };
        let horizontal = drop == DockDrop::Left || drop == DockDrop::Right;
        let axis = if horizontal {
            SplitAxis::Horizontal
        } else {
            SplitAxis::Vertical
        };
        let new_first = drop == DockDrop::Left || drop == DockDrop::Top;
        let ghost new_view = new@;
        let ghost old_view = old@;
        let (first, second) = if new_first {
            (new, old)
        } else {
            (old, new)
        };
        assert(first@ == (if new_first { new_view } else { old_view }));
        assert(second@ == (if new_first { old_view } else { new_view }));
        *self = DockNode::Split {
            id: split_id,
            axis,
            fraction: EVEN_SPLIT_FRACTION,
            first: Box::new(first),
            second: Box::new(second),
        };
        assert(old@ == before);
        assert(self@ == (DockTree::Split {
            id: split_id,
            axis,
            fraction: EVEN_SPLIT_FRACTION,
            first: Box::new(if new_first { new_view } else { old_view }),
            second: Box::new(if new_first { old_view } else { new_view }),
        }));
        assert(self@ == before.with_pane_at(target, pane, drop, split_id, tabs_id));
        true
    }

    /// The fraction of the first split with ID `target`, in pre-order.
    pub fn split_fraction(&self, target: DockNodeId) -> (r: Option<u32>)
        ensures
            r == self@.split_fraction(target),
            r is Some <==> self@.has_split(target),
        decreases self,
    {
        match self {
            DockNode::Split { id, fraction, first, second, .. } => {
                if *id == target {
                    Some(*fraction)
                } else {
                    match first.split_fraction(target) {
                        Some(value) => Some(value),
                        None => second.split_fraction(target),
                    }
                }
            },
            DockNode::Tabs { .. } => None,
        }
    }

    /// Sets the first split with ID `target` to `value`, clamped; reports
    /// whether such a split exists.
    pub fn set_split_fraction(&mut self, target: DockNodeId, value: u32) -> (r: bool)
        ensures
            r == old(self)@.has_split(target),
            final(self)@ == old(self)@.with_split_fraction(target, value),
        decreases old(self)@,
    {
        match self {
            DockNode::Split { id, fraction, first, second, .. } => {
                if *id == target {
                    *fraction = clamp_split_fraction(value);
                    true
                } else {
                    let found = first.set_split_fraction(target, value);
                    if found {
                        true
                    } else {
                        second.set_split_fraction(target, value)
                    }
                }
            },
            DockNode::Tabs { .. } => false,
        }
    }

    /// Appends the node IDs of the tree, in pre-order, to `output`.
    pub fn node_ids(&self, output: &mut Vec<DockNodeId>)
        ensures
            final(output)@ == old(output)@ + self@.node_ids(),
        decreases self,
    {
        output.push(self.id());
        match self {
            DockNode::Split { first, second, .. } => {
                first.node_ids(output);
                second.node_ids(output);
            },
            DockNode::Tabs { .. } => {},
        }
        assert(final(output)@ =~= old(output)@ + self@.node_ids());
    }

    /// Shows `pane` in the first tab group that holds it; reports whether one does.
    fn activate(&mut self, pane: PaneId) -> (r: bool)
        ensures
            r == old(self)@.contains_pane(pane),
            final(self)@ == old(self)@.with_active(pane),
        decreases old(self)@,
    {
        broadcast use vstd::seq_lib::group_seq_properties;
        match self {
            DockNode::Split { first, second, .. } => {
                let found = first.activate(pane);
                if found {
                    true
                } else {
                    second.activate(pane)
                }
            },
            DockNode::Tabs { tabs, active, .. } => {
                match position_of(tabs, pane) {
                    Some(index) => {
                        proof {
                            lemma_first_index(tabs@, pane, index as int);
                        }
                        *active = index;
                        true
                    },
                    None => false,
                }
            },
        }
    }
}


proof fn lemma_concat_multiset_subset(
    a: Seq<DockNodeId>,
    b: Seq<DockNodeId>,
    c: Seq<DockNodeId>,
    d: Seq<DockNodeId>,
)
    requires
        a.to_multiset().subset_of(c.to_multiset()),
        b.to_multiset().subset_of(d.to_multiset()),
    ensures
        (a + b).to_multiset().subset_of((c + d).to_multiset()),
{
    broadcast use vstd::multiset::group_multiset_axioms;
    vstd::seq_lib::lemma_multiset_commutative(a, b);
    vstd::seq_lib::lemma_multiset_commutative(c, d);
}

proof fn lemma_suffix_multiset_subset(c: Seq<DockNodeId>, d: Seq<DockNodeId>)
    ensures
        d.to_multiset().subset_of((c + d).to_multiset()),
{
    broadcast use vstd::multiset::group_multiset_axioms;
    vstd::seq_lib::lemma_multiset_commutative(c, d);
}

proof fn lemma_multiset_subset_refl(a: Seq<DockNodeId>)
    ensures
        a.to_multiset().subset_of(a.to_multiset()),
{
}

impl DockTree {
    /// Removing a pane removes exactly one of its occurrences and keeps every node.
    pub proof fn lemma_without_pane(self, pane: PaneId)
        ensures
            self.without_pane(pane).node_ids() == self.node_ids(),
            !self.contains_pane(pane) ==> self.without_pane(pane) == self,
            self.contains_pane(pane) ==> exists|i: int|
                0 <= i < self.panes().len() && self.panes()[i] == pane && self.without_pane(
                    pane,
                ).panes() == self.panes().remove(i),
        decreases self,
    {
        broadcast use vstd::seq_lib::group_seq_properties;
        match self {
            DockTree::Split { id, axis, fraction, first, second } => {
                first.lemma_without_pane(pane);
                second.lemma_without_pane(pane);
                let a = first.panes();
                let b = second.panes();
                if first.contains_pane(pane) {
                    let i = choose|i: int|
                        0 <= i < a.len() && a[i] == pane && first.without_pane(pane).panes()
                            == a.remove(i);
                    assert(a.remove(i) + b =~= (a + b).remove(i));
                    assert((a + b)[i] == pane);
                } else if second.contains_pane(pane) {
                    let i = choose|i: int|
                        0 <= i < b.len() && b[i] == pane && second.without_pane(pane).panes()
                            == b.remove(i);
                    assert(a + b.remove(i) =~= (a + b).remove(a.len() + i));
                    assert((a + b)[a.len() + i] == pane);
                }
            },
            DockTree::Tabs { id, tabs, active } => {
                if tabs.contains(pane) {
                    lemma_first_index_exists(tabs, pane);
                }
            },
        }
    }

    /// Pruning keeps every pane in order and only ever drops nodes.
    pub proof fn lemma_pruned(self)
        ensures
            self.pruned().panes() == self.panes(),
            self.pruned().node_ids().to_multiset().subset_of(self.node_ids().to_multiset()),
        decreases self,
    {
        broadcast use vstd::seq_lib::group_seq_properties;
        match self {
            DockTree::Split { id, axis, fraction, first, second } => {
                first.lemma_pruned();
                second.lemma_pruned();
                let f = first.pruned();
                let s = second.pruned();
                let whole = seq![id] + first.node_ids() + second.node_ids();
                assert(self.node_ids() == whole);
                if f.is_empty() {
                    assert(first.panes() =~= Seq::<PaneId>::empty());
                    assert(self.panes() =~= second.panes());
                    lemma_suffix_multiset_subset(seq![id] + first.node_ids(), second.node_ids());
                } else if second.pruned().is_empty() {
                    assert(second.panes() =~= Seq::<PaneId>::empty());
                    assert(self.panes() =~= first.panes());
                    lemma_suffix_multiset_subset(seq![id], first.node_ids());
                    lemma_concat_multiset_subset(
                        first.node_ids(),
                        Seq::empty(),
                        seq![id] + first.node_ids(),
                        second.node_ids(),
                    );
                    assert(first.node_ids() + Seq::<DockNodeId>::empty() =~= first.node_ids());
                    assert(f.node_ids().to_multiset().subset_of(first.node_ids().to_multiset()));
                    broadcast use vstd::multiset::group_multiset_axioms;
                    vstd::seq_lib::lemma_multiset_commutative(Seq::<DockNodeId>::empty(), second.node_ids());
                } else {
                    lemma_multiset_subset_refl(seq![id]);
                    lemma_concat_multiset_subset(
                        seq![id],
                        f.node_ids(),
                        seq![id],
                        first.node_ids(),
                    );
                    lemma_concat_multiset_subset(
                        seq![id] + f.node_ids(),
                        s.node_ids(),
                        seq![id] + first.node_ids(),
                        second.node_ids(),
                    );
                }
            },
            DockTree::Tabs { .. } => {},
        }
    }

    /// Normalising changes neither the panes nor the nodes.
    pub proof fn lemma_normalised(self)
        ensures
            self.normalised().panes() == self.panes(),
            self.normalised().node_ids() == self.node_ids(),
        decreases self,
    {
        match self {
            DockTree::Split { first, second, .. } => {
                first.lemma_normalised();
                second.lemma_normalised();
            },
            DockTree::Tabs { .. } => {},
        }
    }

    /// Activating a pane changes neither the panes nor the nodes.
    pub proof fn lemma_with_active(self, pane: PaneId)
        ensures
            self.with_active(pane).panes() == self.panes(),
            self.with_active(pane).node_ids() == self.node_ids(),
            !self.contains_pane(pane) ==> self.with_active(pane) == self,
        decreases self,
    {
        broadcast use vstd::seq_lib::group_seq_properties;
        match self {
            DockTree::Split { first, second, .. } => {
                first.lemma_with_active(pane);
                second.lemma_with_active(pane);
            },
            DockTree::Tabs { .. } => {},
        }
    }

    /// Dropping a pane next to a present target inserts it once among the
    /// panes; a side drop adds exactly the two new node IDs.
    pub proof fn lemma_with_pane_at(
        self,
        target: PaneId,
        pane: PaneId,
        drop: DockDrop,
        split_id: DockNodeId,
        tabs_id: DockNodeId,
    )
        ensures
            !self.contains_pane(target) ==> self.with_pane_at(
                target,
                pane,
                drop,
                split_id,
                tabs_id,
            ) == self,
            self.contains_pane(target) ==> exists|k: int|
                0 <= k <= self.panes().len() && self.with_pane_at(
                    target,
                    pane,
                    drop,
                    split_id,
                    tabs_id,
                ).panes() == self.panes().insert(k, pane),
            self.contains_pane(target) && drop == DockDrop::Tab ==> self.with_pane_at(
                target,
                pane,
                drop,
                split_id,
                tabs_id,
            ).node_ids() == self.node_ids(),
            self.contains_pane(target) && drop != DockDrop::Tab ==> self.with_pane_at(
                target,
                pane,
                drop,
                split_id,
                tabs_id,
            ).node_ids().to_multiset() == self.node_ids().to_multiset().insert(split_id).insert(
                tabs_id,
            ),
        decreases self,
    {
        broadcast use vstd::seq_lib::group_seq_properties;
        broadcast use vstd::multiset::group_multiset_axioms;
        let result = self.with_pane_at(target, pane, drop, split_id, tabs_id);
        match self {
            DockTree::Split { id, axis, fraction, first, second } => {
                first.lemma_with_pane_at(target, pane, drop, split_id, tabs_id);
                second.lemma_with_pane_at(target, pane, drop, split_id, tabs_id);
                let a = first.panes();
                let b = second.panes();
                let f2 = first.with_pane_at(target, pane, drop, split_id, tabs_id);
                let s2 = second.with_pane_at(target, pane, drop, split_id, tabs_id);
                if first.contains_pane(target) {
                    let k = choose|k: int| 0 <= k <= a.len() && f2.panes() == a.insert(k, pane);
                    assert(a.insert(k, pane) + b =~= (a + b).insert(k, pane));
                    vstd::seq_lib::lemma_multiset_commutative(seq![id], first.node_ids());
                    vstd::seq_lib::lemma_multiset_commutative(seq![id], f2.node_ids());
                    vstd::seq_lib::lemma_multiset_commutative(
                        seq![id] + first.node_ids(),
                        second.node_ids(),
                    );
                    vstd::seq_lib::lemma_multiset_commutative(
                        seq![id] + f2.node_ids(),
                        second.node_ids(),
                    );
                    if drop != DockDrop::Tab {
                        assert(result.node_ids().to_multiset() =~= self.node_ids().to_multiset().insert(
                            split_id,
                        ).insert(tabs_id));
                    }
                } else if second.contains_pane(target) {
                    let k = choose|k: int| 0 <= k <= b.len() && s2.panes() == b.insert(k, pane);
                    assert(a + b.insert(k, pane) =~= (a + b).insert(a.len() + k, pane));
                    vstd::seq_lib::lemma_multiset_commutative(
                        seq![id] + first.node_ids(),
                        second.node_ids(),
                    );
                    vstd::seq_lib::lemma_multiset_commutative(
                        seq![id] + first.node_ids(),
                        s2.node_ids(),
                    );
                    if drop != DockDrop::Tab {
                        assert(result.node_ids().to_multiset() =~= self.node_ids().to_multiset().insert(
                            split_id,
                        ).insert(tabs_id));
                    }
                }
            },
            DockTree::Tabs { id, tabs, active } => {
                if tabs.contains(target) {
                    if drop == DockDrop::Tab {
                        assert(tabs.push(pane) =~= tabs.insert(tabs.len() as int, pane));
                    } else {
                        let new_first = drop == DockDrop::Left || drop == DockDrop::Top;
                        let new = DockTree::Tabs { id: tabs_id, tabs: seq![pane], active: 0 };
                        assert(new.node_ids() == seq![tabs_id]);
                        assert(new.panes() == seq![pane]);
                        assert(self.node_ids() == seq![id]);
                        if new_first {
                            assert(seq![pane] + tabs =~= tabs.insert(0, pane));
                            assert(result.node_ids() =~= seq![split_id, tabs_id, id]);
                            assert(seq![split_id, tabs_id, id] =~= Seq::<DockNodeId>::empty().push(split_id).push(tabs_id).push(id));
                        } else {
                            assert(tabs + seq![pane] =~= tabs.insert(tabs.len() as int, pane));
                            assert(result.node_ids() =~= seq![split_id, id, tabs_id]);
                            assert(seq![split_id, id, tabs_id] =~= Seq::<DockNodeId>::empty().push(split_id).push(id).push(tabs_id));
                        }
                        assert(self.node_ids() =~= seq![id]);
                        broadcast use vstd::seq_lib::group_to_multiset_ensures;
                        assert(seq![id] =~= Seq::<DockNodeId>::empty().push(id));
                        assert(Seq::<DockNodeId>::empty().to_multiset() =~= vstd::multiset::Multiset::empty());
                        assert(result.node_ids().to_multiset() =~= self.node_ids().to_multiset().insert(
                            split_id,
                        ).insert(tabs_id));
                    }
                }
            },
        }
    }

    /// The tab group that holds `pane`, looking in the first subtree before
    /// the second.
    pub open spec fn group_of(self, pane: PaneId) -> Option<DockTree>
        decreases self,
    {
        match self {
            DockTree::Split { first, second, .. } => if first.contains_pane(pane) {
                first.group_of(pane)
            } else {
                second.group_of(pane)
            },
            DockTree::Tabs { tabs, .. } => if tabs.contains(pane) {
                Some(self)
            } else {
                None
            },
        }
    }

    /// The first node with ID `id`, in pre-order.
    pub open spec fn node_with_id(self, id: DockNodeId) -> Option<DockTree>
        decreases self,
    {
        if self.id() == id {
            Some(self)
        } else {
            match self {
                DockTree::Split { first, second, .. } => match first.node_with_id(id) {
                    Some(node) => Some(node),
                    None => second.node_with_id(id),
                },
                DockTree::Tabs { .. } => None,
            }
        }
    }

    /// A tree without the ID `id` has no node with it.
    proof fn lemma_no_node_with_id(self, id: DockNodeId)
        requires
            !self.node_ids().contains(id),
        ensures
            self.node_with_id(id) is None,
        decreases self,
    {
        match self {
            DockTree::Split { id: own, first, second, .. } => {
                assert(self.node_ids()[0] == own);
                assert forall|i: int| 0 <= i < first.node_ids().len() implies first.node_ids()[i] != id by {
                    assert(self.node_ids()[1 + i] == first.node_ids()[i]);
                }
                assert forall|i: int| 0 <= i < second.node_ids().len() implies second.node_ids()[i] != id by {
                    assert(self.node_ids()[1 + first.node_ids().len() + i] == second.node_ids()[i]);
                }
                first.lemma_no_node_with_id(id);
                second.lemma_no_node_with_id(id);
            },
            DockTree::Tabs { .. } => {
                assert(self.node_ids()[0] == self.id());
            },
        }
    }

    /// The group that holds a present pane is a tab group that holds it.
    pub proof fn lemma_group_of(self, pane: PaneId)
        requires
            self.contains_pane(pane),
        ensures
            self.group_of(pane) matches Some(group) && group is Tabs && group.contains_pane(pane),
        decreases self,
    {
        match self {
            DockTree::Split { first, second, .. } => {
                if first.contains_pane(pane) {
                    first.lemma_group_of(pane);
                } else {
                    assert(second.contains_pane(pane)) by {
                        let j = choose|j: int| 0 <= j < self.panes().len() && self.panes()[j] == pane;
                        if j < first.panes().len() {
                            assert(first.panes()[j] == pane);
                        } else {
                            assert(second.panes()[j - first.panes().len()] == pane);
                        }
                    }
                    second.lemma_group_of(pane);
                }
            },
            DockTree::Tabs { .. } => {},
        }
    }

    /// Normalising keeps each node where it is, normalised.
    proof fn lemma_normalised_node_with_id(self, id: DockNodeId)
        ensures
            self.normalised().node_with_id(id) == match self.node_with_id(id) {
                Some(node) => Some(node.normalised()),
                None => None::<DockTree>,
            },
        decreases self,
    {
        match self {
            DockTree::Split { first, second, .. } => {
                first.lemma_normalised_node_with_id(id);
                second.lemma_normalised_node_with_id(id);
            },
            DockTree::Tabs { .. } => {},
        }
    }

    /// A tab drop onto the group of a present target adds the pane as the
    /// group's last tab and makes it the active one; the group keeps its ID
    /// and its other tabs.
    pub proof fn lemma_tab_drop_joins_group(
        self,
        target: PaneId,
        pane: PaneId,
        split_id: DockNodeId,
        tabs_id: DockNodeId,
    )
        requires
            self.contains_pane(target),
        ensures
            self.group_of(target) matches Some(DockTree::Tabs { id, tabs, .. }) && self.with_pane_at(
                target,
                pane,
                DockDrop::Tab,
                split_id,
                tabs_id,
            ).group_of(target) == Some(DockTree::Tabs { id, tabs: tabs.push(pane), active: tabs.len() }),
        decreases self,
    {
        self.lemma_group_of(target);
        match self {
            DockTree::Split { first, second, .. } => {
                if first.contains_pane(target) {
                    first.lemma_tab_drop_joins_group(target, pane, split_id, tabs_id);
                    let f2 = first.with_pane_at(target, pane, DockDrop::Tab, split_id, tabs_id);
                    assert(f2.contains_pane(target)) by {
                        first.lemma_with_pane_at(target, pane, DockDrop::Tab, split_id, tabs_id);
                        let k = choose|k: int| 0 <= k <= first.panes().len() && f2.panes() == first.panes().insert(k, pane);
                        let j = choose|j: int| 0 <= j < first.panes().len() && first.panes()[j] == target;
                        if j < k {
                            assert(f2.panes()[j] == target);
                        } else {
                            assert(f2.panes()[j + 1] == target);
                        }
                    }
                    f2.lemma_group_of(target);
                } else {
                    assert(second.contains_pane(target)) by {
                        let j = choose|j: int| 0 <= j < self.panes().len() && self.panes()[j] == target;
                        if j < first.panes().len() {
                            assert(first.panes()[j] == target);
                        } else {
                            assert(second.panes()[j - first.panes().len()] == target);
                        }
                    }
                    second.lemma_tab_drop_joins_group(target, pane, split_id, tabs_id);
                }
            },
            DockTree::Tabs { tabs, .. } => {
                assert(tabs.push(pane).contains(target)) by {
                    let j = choose|j: int| 0 <= j < tabs.len() && tabs[j] == target;
                    assert(tabs.push(pane)[j] == target);
                }
            },
        }
    }

    /// A side drop (left, right, top or bottom) onto the group of a present
    /// target replaces that group by a new even split, named `split_id`, of
    /// the group and a new group of the pane alone, named `tabs_id`: side by
    /// side for a left or right drop, one above the other for a top or bottom
    /// drop. The new group is the first child (left or top) exactly when the
    /// drop is left or top, and the second (right or bottom) when it is right
    /// or bottom.
    pub proof fn lemma_side_drop_places_pane(
        self,
        target: PaneId,
        pane: PaneId,
        drop: DockDrop,
        split_id: DockNodeId,
        tabs_id: DockNodeId,
    )
        requires
            self.contains_pane(target),
            drop != DockDrop::Tab,
            !self.node_ids().contains(split_id),
        ensures
            self.group_of(target) is Some,
            ({
                let group = self.group_of(target)->0;
                let alone = DockTree::Tabs { id: tabs_id, tabs: seq![pane], active: 0 };
                let leading = drop == DockDrop::Left || drop == DockDrop::Top;
                self.with_pane_at(target, pane, drop, split_id, tabs_id).node_with_id(split_id) == Some(
                    DockTree::Split {
                        id: split_id,
                        axis: if drop == DockDrop::Left || drop == DockDrop::Right {
                            SplitAxis::Horizontal
                        } else {
                            SplitAxis::Vertical
                        },
                        fraction: EVEN_SPLIT_FRACTION,
                        first: Box::new(if leading { alone } else { group }),
                        second: Box::new(if leading { group } else { alone }),
                    },
                )
            }),
        decreases self,
    {
        match self {
            DockTree::Split { id, first, second, .. } => {
                assert(self.node_ids()[0] == id);
                assert forall|i: int| 0 <= i < first.node_ids().len() implies first.node_ids()[i] != split_id by {
                    assert(self.node_ids()[1 + i] == first.node_ids()[i]);
                }
                assert forall|i: int| 0 <= i < second.node_ids().len() implies second.node_ids()[i] != split_id by {
                    assert(self.node_ids()[1 + first.node_ids().len() + i] == second.node_ids()[i]);
                }
                if first.contains_pane(target) {
                    first.lemma_side_drop_places_pane(target, pane, drop, split_id, tabs_id);
                } else {
                    assert(second.contains_pane(target)) by {
                        let j = choose|j: int| 0 <= j < self.panes().len() && self.panes()[j] == target;
                        if j < first.panes().len() {
                            assert(first.panes()[j] == target);
                        } else {
                            assert(second.panes()[j - first.panes().len()] == target);
                        }
                    }
                    first.lemma_no_node_with_id(split_id);
                    second.lemma_side_drop_places_pane(target, pane, drop, split_id, tabs_id);
                }
            },
            DockTree::Tabs { .. } => {},
        }
    }
}



impl DockNode {
    /// A separate copy of this tree.
    pub fn duplicate(&self) -> (r: DockNode)
        ensures
            r@ == self@,
        decreases self,
    {
        match self {
            DockNode::Split { id, axis, fraction, first, second } => DockNode::Split {
                id: *id,
                axis: *axis,
                fraction: *fraction,
                first: Box::new(first.duplicate()),
                second: Box::new(second.duplicate()),
            },
            DockNode::Tabs { id, tabs, active } => {
                let mut copy: Vec<PaneId> = Vec::new();
                let mut i: usize = 0;
                while i < tabs.len()
                    invariant
                        0 <= i <= tabs.len(),
                        copy@ =~= tabs@.subrange(0, i as int),
                    decreases tabs.len() - i,
                {
                    copy.push(tabs[i]);
                    i = i + 1;
                }
                assert(copy@ =~= tabs@);
                DockNode::Tabs { id: *id, tabs: copy, active: *active }
            },
        }
    }
}

impl Clone for DockNode {
    fn clone(&self) -> (r: Self)
        ensures
            r@ == self@,
    {
        self.duplicate()
    }
}

/// The persisted arrangement of panes: one canonical dock tree, the pane
/// with keyboard focus, and the counter that names new dock nodes.
#[derive(Clone, Debug, PartialEq)]
pub struct Workspace {
    pub schema_version: u32,
    pub root: DockNode,
    pub active_pane: PaneId,
    pub closed_optional_panes: BTreeSet<PaneId>,
    pub next_node_id: u64,
}

/// The mathematical model of a workspace.
pub struct WorkspaceView {
    pub schema_version: u32,
    pub root: DockTree,
    pub active_pane: PaneId,
    pub closed_optional_panes: Set<PaneId>,
    pub next_node_id: u64,
}

impl View for Workspace {
    type V = WorkspaceView;

    open spec fn view(&self) -> WorkspaceView {
        WorkspaceView {
            schema_version: self.schema_version,
            root: self.root@,
            active_pane: self.active_pane,
            closed_optional_panes: self.closed_optional_panes@,
            next_node_id: self.next_node_id,
        }
    }
}

/// Every node ID is below `next`.
pub open spec fn ids_below(ids: Seq<DockNodeId>, next: u64) -> bool {
    forall|i: int| 0 <= i < ids.len() ==> ids[i].0 < next
}

impl WorkspaceView {
    /// The reason a persisted workspace is refused, checked in order.
    pub open spec fn validation_error(self) -> Option<Seq<char>> {
        let panes = self.root.panes();
        let ids = self.root.node_ids();
        if self.schema_version != LAYOUT_SCHEMA_VERSION {
            Some("unsupported layout schema "@ + decimal(self.schema_version as nat))
        } else if panes.len() == 0 {
            Some("workspace contains no panes"@)
        } else if !panes.no_duplicates() {
            Some("a pane occurs more than once"@)
        } else if !panes.contains(self.active_pane) {
            Some("active pane is absent"@)
        } else if !ids.no_duplicates() || ids.contains(DockNodeId(0)) {
            Some("dock node IDs must be non-zero and unique"@)
        } else if !ids_below(ids, self.next_node_id) {
            Some("next dock node ID does not exceed existing IDs"@)
        } else {
            None
        }
    }

    /// The workspace is of the current schema, holds each pane once, focuses
    /// one of them, and names its nodes uniquely with IDs in `1..next_node_id`.
    pub open spec fn valid(self) -> bool {
        let panes = self.root.panes();
        let ids = self.root.node_ids();
        &&& self.schema_version == LAYOUT_SCHEMA_VERSION
        &&& panes.len() > 0
        &&& panes.no_duplicates()
        &&& panes.contains(self.active_pane)
        &&& ids.no_duplicates()
        &&& !ids.contains(DockNodeId(0))
        &&& ids_below(ids, self.next_node_id)
    }

    /// A move names two different panes that are both present.
    pub open spec fn can_move(self, pane: PaneId, target: PaneId) -> bool {
        pane != target && self.root.contains_pane(pane) && self.root.contains_pane(target)
    }

    /// The workspace after moving `pane` onto the tab group of `target`.
    pub open spec fn moved(self, pane: PaneId, target: PaneId, drop: DockDrop) -> WorkspaceView {
        let split_id = DockNodeId(self.next_node_id);
        let tabs_id = DockNodeId((self.next_node_id + 1) as u64);
        WorkspaceView {
            schema_version: self.schema_version,
            root: self.root.without_pane(pane).pruned().with_pane_at(
                target,
                pane,
                drop,
                split_id,
                tabs_id,
            ).normalised(),
            active_pane: pane,
            closed_optional_panes: self.closed_optional_panes,
            next_node_id: if drop == DockDrop::Tab {
                self.next_node_id
            } else {
                (self.next_node_id + 2) as u64
            },
        }
    }

    /// The workspace after focusing `pane`, or unchanged when it is absent.
    pub open spec fn activated(self, pane: PaneId) -> WorkspaceView {
        if self.root.contains_pane(pane) {
            WorkspaceView {
                schema_version: self.schema_version,
                root: self.root.with_active(pane),
                active_pane: pane,
                closed_optional_panes: self.closed_optional_panes,
                next_node_id: self.next_node_id,
            }
        } else {
            self
        }
    }
}

fn panes_distinct(v: &Vec<PaneId>) -> (r: bool)
    ensures
        r == v@.no_duplicates(),
{
    let mut i: usize = 0;
    while i < v.len()
        invariant
            0 <= i <= v.len(),
            forall|a: int, b: int| 0 <= a < i && a < b < v.len() ==> v@[a] != v@[b],
        decreases v.len() - i,
    {
        let mut j: usize = i + 1;
        while j < v.len()
            invariant
                i < v.len(),
                i + 1 <= j <= v.len(),
                forall|a: int, b: int| 0 <= a < i && a < b < v.len() ==> v@[a] != v@[b],
                forall|b: int| i < b < j ==> v@[i as int] != v@[b],
            decreases v.len() - j,
        {
            if v[i] == v[j] {
                return false;
            }
            j = j + 1;
        }
        i = i + 1;
    }
    true
}

fn ids_distinct(v: &Vec<DockNodeId>) -> (r: bool)
    ensures
        r == v@.no_duplicates(),
{
    let mut i: usize = 0;
    while i < v.len()
        invariant
            0 <= i <= v.len(),
            forall|a: int, b: int| 0 <= a < i && a < b < v.len() ==> v@[a] != v@[b],
        decreases v.len() - i,
    {
        let mut j: usize = i + 1;
        while j < v.len()
            invariant
                i < v.len(),
                i + 1 <= j <= v.len(),
                forall|a: int, b: int| 0 <= a < i && a < b < v.len() ==> v@[a] != v@[b],
                forall|b: int| i < b < j ==> v@[i as int] != v@[b],
            decreases v.len() - j,
        {
            if v[i] == v[j] {
                return false;
            }
            j = j + 1;
        }
        i = i + 1;
    }
    true
}

fn vec_contains_pane(v: &Vec<PaneId>, pane: PaneId) -> (r: bool)
    ensures
        r == v@.contains(pane),
{
    position_of(v, pane).is_some()
}

fn vec_contains_id(v: &Vec<DockNodeId>, id: DockNodeId) -> (r: bool)
    ensures
        r == v@.contains(id),
{
    let mut i: usize = 0;
    while i < v.len()
        invariant
            0 <= i <= v.len(),
            forall|j: int| 0 <= j < i ==> v@[j] != id,
        decreases v.len() - i,
    {
        if v[i] == id {
            return true;
        }
        i = i + 1;
    }
    false
}

fn all_ids_below(v: &Vec<DockNodeId>, next: u64) -> (r: bool)
    ensures
        r == ids_below(v@, next),
{
    let mut i: usize = 0;
    while i < v.len()
        invariant
            0 <= i <= v.len(),
            forall|j: int| 0 <= j < i ==> v@[j].0 < next,
        decreases v.len() - i,
    {
        if v[i].0 >= next {
            return false;
        }
        i = i + 1;
    }
    true
}

impl Workspace {
    /// Accepts a workspace exactly when it is valid; otherwise names the
    /// first rule that it breaks.
    pub fn validate(&self) -> (r: Result<(), String>)
        ensures
            r is Ok <==> self@.valid(),
            match r {
                Ok(_) => self@.validation_error() is None,
                Err(message) => self@.validation_error() == Some(message@),
            },
    {
        if self.schema_version != LAYOUT_SCHEMA_VERSION {
            let digits = decimal_chars(self.schema_version as u64);
            return Err(concat_chars("unsupported layout schema ", &digits));
        }
        let mut panes: Vec<PaneId> = Vec::new();
        self.root.pane_ids(&mut panes);
        assert(panes@ =~= self@.root.panes());
        if panes.len() == 0 {
            return Err(owned("workspace contains no panes"));
        }
        if !panes_distinct(&panes) {
            return Err(owned("a pane occurs more than once"));
        }
        if !vec_contains_pane(&panes, self.active_pane) {
            return Err(owned("active pane is absent"));
        }
        let mut node_ids: Vec<DockNodeId> = Vec::new();
        self.root.node_ids(&mut node_ids);
        assert(node_ids@ =~= self@.root.node_ids());
        if !ids_distinct(&node_ids) || vec_contains_id(&node_ids, DockNodeId(0)) {
            return Err(owned("dock node IDs must be non-zero and unique"));
        }
        if !all_ids_below(&node_ids, self.next_node_id) {
            return Err(owned("next dock node ID does not exceed existing IDs"));
        }
        Ok(())
    }

    /// Moves `pane` onto the tab group holding `target`: into it as the
    /// active tab, or into a new group beside it. A move of a pane onto
    /// itself, or naming an absent pane, changes nothing and reports false.
    pub fn move_pane(&mut self, pane: PaneId, target: PaneId, drop: DockDrop) -> (r: bool)
        requires
            old(self)@.can_move(pane, target) ==> old(self).next_node_id < u64::MAX,
            old(self)@.can_move(pane, target) && drop != DockDrop::Tab ==> old(self).next_node_id
                + 2 <= u64::MAX,
        ensures
            r == old(self)@.can_move(pane, target),
            r ==> final(self)@ == old(self)@.moved(pane, target, drop),
            !r ==> final(self)@ == old(self)@,
    {
        if pane == target {
            return false;
        }
        if !self.root.contains_pane(pane) || !self.root.contains_pane(target) {
            return false;
        }
        let ghost before = self.root@;
        if !self.root.remove_pane(pane) {
            return false;
        }
        self.root.prune_empty();
        proof {
            before.lemma_without_pane(pane);
            before.without_pane(pane).lemma_pruned();
            let i = choose|i: int|
                0 <= i < before.panes().len() && before.panes()[i] == pane
                    && before.without_pane(pane).panes() == before.panes().remove(i);
            let j = choose|j: int| 0 <= j < before.panes().len() && before.panes()[j] == target;
            if j < i {
                assert(before.panes().remove(i)[j] == target);
            } else {
                assert(before.panes().remove(i)[j - 1] == target);
            }
        }
        // The target survives the removal of the other pane, so the drop
        // below always finds its tab group.
        let split_id = DockNodeId(self.next_node_id);
        let tabs_id = DockNodeId(self.next_node_id + 1);
        if !self.root.insert_at(target, pane, drop, split_id, tabs_id) {
            return false;
        }
        if drop != DockDrop::Tab {
            self.next_node_id = self.next_node_id + 2;
        }
        self.root.normalise();
        self.active_pane = pane;
        true
    }

    /// Focuses `pane` and shows it in its tab group; does nothing when the
    /// workspace does not hold it.
    pub fn activate(&mut self, pane: PaneId)
        ensures
            final(self)@ == old(self)@.activated(pane),
    {
        proof {
            self.root@.lemma_with_active(pane);
        }
        if self.root.activate(pane) {
            self.active_pane = pane;
        }
    }
}


proof fn lemma_remove_keeps_distinct(s: Seq<PaneId>, i: int)
    requires
        s.no_duplicates(),
        0 <= i < s.len(),
    ensures
        s.remove(i).no_duplicates(),
        !s.remove(i).contains(s[i]),
{
    let r = s.remove(i);
    assert forall|a: int, b: int| 0 <= a < r.len() && 0 <= b < r.len() && a != b implies r[a]
        != r[b] by {
        let sa = if a < i { a } else { a + 1 };
        let sb = if b < i { b } else { b + 1 };
        assert(r[a] == s[sa] && r[b] == s[sb]);
    }
    if r.contains(s[i]) {
        let a = choose|a: int| 0 <= a < r.len() && r[a] == s[i];
        let sa = if a < i { a } else { a + 1 };
        assert(s[sa] == s[i]);
    }
}

proof fn lemma_insert_keeps_distinct(s: Seq<PaneId>, k: int, x: PaneId)
    requires
        s.no_duplicates(),
        !s.contains(x),
        0 <= k <= s.len(),
    ensures
        s.insert(k, x).no_duplicates(),
        s.insert(k, x).contains(x),
{
    let r = s.insert(k, x);
    assert(r[k] == x);
    assert forall|a: int, b: int| 0 <= a < r.len() && 0 <= b < r.len() && a != b implies r[a]
        != r[b] by {
        if a != k && b != k {
            let sa = if a < k { a } else { a - 1 };
            let sb = if b < k { b } else { b - 1 };
            assert(r[a] == s[sa] && r[b] == s[sb]);
        } else if a == k {
            let sb = if b < k { b } else { b - 1 };
            assert(r[b] == s[sb]);
        } else {
            let sa = if a < k { a } else { a - 1 };
            assert(r[a] == s[sa]);
        }
    }
}

/// The panes of a workspace are exactly the same after a successful move:
/// the moved pane leaves its group and reappears once beside the target.
pub proof fn lemma_move_keeps_panes(ws: WorkspaceView, pane: PaneId, target: PaneId, drop: DockDrop)
    requires
        ws.can_move(pane, target),
    ensures
        ws.moved(pane, target, drop).root.panes().to_multiset() == ws.root.panes().to_multiset(),
        ws.moved(pane, target, drop).root.contains_pane(pane),
        ws.moved(pane, target, drop).root.contains_pane(target),
{
    broadcast use vstd::seq_lib::group_to_multiset_ensures;
    broadcast use vstd::multiset::group_multiset_axioms;
    let t0 = ws.root;
    let t1 = t0.without_pane(pane);
    let t2 = t1.pruned();
    let split_id = DockNodeId(ws.next_node_id);
    let tabs_id = DockNodeId((ws.next_node_id + 1) as u64);
    let t3 = t2.with_pane_at(target, pane, drop, split_id, tabs_id);
    t0.lemma_without_pane(pane);
    t1.lemma_pruned();
    let p0 = t0.panes();
    let i = choose|i: int| 0 <= i < p0.len() && p0[i] == pane && t1.panes() == p0.remove(i);
    let j = choose|j: int| 0 <= j < p0.len() && p0[j] == target;
    if j < i {
        assert(p0.remove(i)[j] == target);
    } else {
        assert(p0.remove(i)[j - 1] == target);
    }
    t2.lemma_with_pane_at(target, pane, drop, split_id, tabs_id);
    t3.lemma_normalised();
    let k = choose|k: int| 0 <= k <= t2.panes().len() && t3.panes() == t2.panes().insert(k, pane);
    assert(t3.panes()[k] == pane);
    let p1 = p0.remove(i);
    if j < i {
        if j < k {
            assert(t3.panes()[j] == target);
        } else {
            assert(t3.panes()[j + 1] == target);
        }
    } else {
        if j - 1 < k {
            assert(t3.panes()[j - 1] == target);
        } else {
            assert(t3.panes()[j] == target);
        }
    }
    assert(p0.to_multiset().remove(pane).insert(pane) =~= p0.to_multiset());
}

/// Moving a pane beside another (a left, right, top or bottom drop) puts it
/// alone in a new tab group that shares a new even split, named by the next
/// node ID, with the group that holds the target: side by side for a left or
/// right drop, one above the other for a top or bottom drop. The new group
/// is the first child (left or top) for a left or top drop, and the second
/// child (right or bottom) for a right or bottom drop; the other child holds
/// the target.
pub proof fn lemma_side_move_places_pane(ws: WorkspaceView, pane: PaneId, target: PaneId, drop: DockDrop)
    requires
        ws.valid(),
        ws.can_move(pane, target),
        drop != DockDrop::Tab,
    ensures
        ({
            let moved = ws.moved(pane, target, drop);
            let alone = DockTree::Tabs { id: DockNodeId((ws.next_node_id + 1) as u64), tabs: seq![pane], active: 0 };
            let leading = drop == DockDrop::Left || drop == DockDrop::Top;
            moved.root.node_with_id(DockNodeId(ws.next_node_id)) matches Some(
                DockTree::Split { axis, fraction, first, second, .. },
            ) && axis == (if drop == DockDrop::Left || drop == DockDrop::Right {
                SplitAxis::Horizontal
            } else {
                SplitAxis::Vertical
            }) && fraction == EVEN_SPLIT_FRACTION && (leading ==> *first == alone && second.contains_pane(target))
                && (!leading ==> *second == alone && first.contains_pane(target))
        }),
{
    broadcast use vstd::seq_lib::group_to_multiset_ensures;
    broadcast use vstd::multiset::group_multiset_axioms;
    let t0 = ws.root;
    let t1 = t0.without_pane(pane);
    let t2 = t1.pruned();
    let split_id = DockNodeId(ws.next_node_id);
    let tabs_id = DockNodeId((ws.next_node_id + 1) as u64);
    let t3 = t2.with_pane_at(target, pane, drop, split_id, tabs_id);
    t0.lemma_without_pane(pane);
    t1.lemma_pruned();
    let p0 = t0.panes();
    let i = choose|i: int| 0 <= i < p0.len() && p0[i] == pane && t1.panes() == p0.remove(i);
    let j = choose|j: int| 0 <= j < p0.len() && p0[j] == target;
    if j < i {
        assert(p0.remove(i)[j] == target);
    } else {
        assert(p0.remove(i)[j - 1] == target);
    }
    assert(t2.contains_pane(target));
    if t2.node_ids().contains(split_id) {
        assert(t2.node_ids().to_multiset().count(split_id) > 0);
        assert(t0.node_ids().to_multiset().count(split_id) > 0);
        assert(t0.node_ids().contains(split_id));
        let k = choose|k: int| 0 <= k < t0.node_ids().len() && t0.node_ids()[k] == split_id;
        assert(t0.node_ids()[k].0 < ws.next_node_id);
    }
    t2.lemma_side_drop_places_pane(target, pane, drop, split_id, tabs_id);
    t2.lemma_group_of(target);
    let group = t2.group_of(target)->0;
    group.lemma_normalised();
    t3.lemma_normalised_node_with_id(split_id);
    let alone = DockTree::Tabs { id: tabs_id, tabs: seq![pane], active: 0 };
    assert(alone.normalised() == alone);
}

proof fn lemma_counts_at_most_one(s: Seq<DockNodeId>)
    requires
        s.no_duplicates(),
    ensures
        forall|x: DockNodeId| s.to_multiset().count(x) <= 1,
{
    broadcast use vstd::seq_lib::group_to_multiset_ensures;
    s.lemma_multiset_has_no_duplicates();
}

proof fn lemma_distinct_from_counts(s: Seq<DockNodeId>)
    requires
        forall|x: DockNodeId| s.to_multiset().count(x) <= 1,
    ensures
        s.no_duplicates(),
{
    broadcast use vstd::seq_lib::group_to_multiset_ensures;
    assert forall|x: DockNodeId| s.to_multiset().contains(x) implies s.to_multiset().count(x)
        == 1 by {}
    s.lemma_multiset_has_no_duplicates_conv();
}

/// A successful move keeps a valid workspace valid: panes stay unique and
/// present, the moved pane is focused, and new dock nodes get fresh, non-zero
/// IDs below the advanced counter.
pub proof fn lemma_move_keeps_validity(ws: WorkspaceView, pane: PaneId, target: PaneId, drop: DockDrop)
    requires
        ws.valid(),
        ws.can_move(pane, target),
        drop != DockDrop::Tab ==> ws.next_node_id + 2 <= u64::MAX,
    ensures
        ws.moved(pane, target, drop).valid(),
{
    broadcast use vstd::seq_lib::group_to_multiset_ensures;
    broadcast use vstd::multiset::group_multiset_axioms;
    let moved = ws.moved(pane, target, drop);
    let next = ws.next_node_id;
    let t0 = ws.root;
    let t1 = t0.without_pane(pane);
    let t2 = t1.pruned();
    let split_id = DockNodeId(next);
    let tabs_id = DockNodeId((next + 1) as u64);
    let t3 = t2.with_pane_at(target, pane, drop, split_id, tabs_id);
    lemma_move_keeps_panes(ws, pane, target, drop);
    t0.lemma_without_pane(pane);
    t1.lemma_pruned();
    t2.lemma_with_pane_at(target, pane, drop, split_id, tabs_id);
    t3.lemma_normalised();
    // Panes: remove the one occurrence, then insert it again.
    let p0 = t0.panes();
    let i = choose|i: int| 0 <= i < p0.len() && p0[i] == pane && t1.panes() == p0.remove(i);
    lemma_remove_keeps_distinct(p0, i);
    assert(t2.contains_pane(target));
    let k = choose|k: int| 0 <= k <= t2.panes().len() && t3.panes() == t2.panes().insert(k, pane);
    lemma_insert_keeps_distinct(t2.panes(), k, pane);
    // Node IDs: pruning only drops nodes; a side drop adds two fresh ones.
    let ids0 = t0.node_ids();
    let ids2 = t2.node_ids();
    let ids3 = t3.node_ids();
    lemma_counts_at_most_one(ids0);
    assert(ids0.len() > 0) by {
        assert(ids0[0] == t0.id());
    }
    assert(ids0[0].0 < next);
    assert forall|x: DockNodeId| ids2.to_multiset().count(x) > 0 implies ids0.contains(x) && x.0
        < next && x != DockNodeId(0) by {
        assert(ids0.to_multiset().count(x) > 0);
        let a = choose|a: int| 0 <= a < ids0.len() && ids0[a] == x;
    }
    if drop == DockDrop::Tab {
        assert forall|x: DockNodeId| ids3.to_multiset().count(x) <= 1 by {
            assert(ids2.to_multiset().count(x) <= ids0.to_multiset().count(x));
        }
    } else {
        assert forall|x: DockNodeId| ids3.to_multiset().count(x) <= 1 by {
            assert(ids2.to_multiset().count(x) <= ids0.to_multiset().count(x));
            if x == split_id || x == tabs_id {
                assert(ids2.to_multiset().count(x) == 0);
            }
        }
    }
    lemma_distinct_from_counts(ids3);
    assert forall|a: int| 0 <= a < ids3.len() implies ids3[a].0 < moved.next_node_id && ids3[a]
        != DockNodeId(0) by {
        let x = ids3[a];
        assert(ids3.to_multiset().count(x) > 0);
        if drop == DockDrop::Tab {
            assert(ids2.to_multiset().count(x) > 0);
        } else if x != split_id && x != tabs_id {
            assert(ids2.to_multiset().count(x) > 0);
        }
    }
}

/// Focusing a pane keeps a valid workspace valid and changes neither its
/// panes nor its dock nodes.
pub proof fn lemma_activate_keeps_validity(ws: WorkspaceView, pane: PaneId)
    requires
        ws.valid(),
    ensures
        ws.activated(pane).valid(),
        ws.activated(pane).root.panes() == ws.root.panes(),
        ws.activated(pane).root.node_ids() == ws.root.node_ids(),
        ws.root.contains_pane(pane) ==> ws.activated(pane).active_pane == pane,
{
    ws.root.lemma_with_active(pane);
}


/// A tab group holding the panes `first .. first + count`, showing the first.
pub open spec fn consecutive_tabs(id: u64, first: u32, count: u32) -> DockTree {
    DockTree::Tabs {
        id: DockNodeId(id),
        tabs: Seq::new(count as nat, |i: int| PaneId((first + i) as u32)),
        active: 0,
    }
}

pub open spec fn even_split(id: u64, axis: SplitAxis, fraction: u32, first: DockTree, second: DockTree) -> DockTree {
    DockTree::Split { id: DockNodeId(id), axis, fraction, first: Box::new(first), second: Box::new(second) }
}

/// The analytical reference layout: four image panes on the left, two
/// groups of two tool panes on the right.
pub open spec fn analytical_default_view() -> WorkspaceView {
    WorkspaceView {
        schema_version: LAYOUT_SCHEMA_VERSION,
        active_pane: PaneId(1),
        closed_optional_panes: Set::empty(),
        next_node_id: 12,
        root: even_split(
            1,
            SplitAxis::Horizontal,
            7_200,
            even_split(
                2,
                SplitAxis::Vertical,
                6_800,
                even_split(3, SplitAxis::Horizontal, 5_000, consecutive_tabs(4, 1, 1), consecutive_tabs(5, 2, 1)),
                even_split(6, SplitAxis::Horizontal, 5_000, consecutive_tabs(7, 3, 1), consecutive_tabs(8, 4, 1)),
            ),
            even_split(9, SplitAxis::Vertical, 5_200, consecutive_tabs(10, 5, 2), consecutive_tabs(11, 7, 2)),
        ),
    }
}

fn consecutive_tabs_node(id: u64, first: u32, count: u32) -> (r: DockNode)
    requires
        first + count <= u32::MAX,
    ensures
        r@ == consecutive_tabs(id, first, count),
{
    let mut tabs: Vec<PaneId> = Vec::new();
    let mut i: u32 = 0;
    while i < count
        invariant
            0 <= i <= count,
            first + count <= u32::MAX,
            tabs@ =~= Seq::new(i as nat, |j: int| PaneId((first + j) as u32)),
        decreases count - i,
    {
        tabs.push(PaneId(first + i));
        i = i + 1;
    }
    DockNode::Tabs { id: DockNodeId(id), tabs, active: 0 }
}

fn split_node(id: u64, axis: SplitAxis, fraction: u32, first: DockNode, second: DockNode) -> (r: DockNode)
    ensures
        r@ == even_split(id, axis, fraction, first@, second@),
{
    DockNode::Split { id: DockNodeId(id), axis, fraction, first: Box::new(first), second: Box::new(second) }
}

proof fn lemma_analytical_default_valid()
    ensures
        analytical_default_view().valid(),
        analytical_default_view().root.panes() == seq![
            PaneId(1),
            PaneId(2),
            PaneId(3),
            PaneId(4),
            PaneId(5),
            PaneId(6),
            PaneId(7),
            PaneId(8),
        ],
{
    let ws = analytical_default_view();
    let t = ws.root;
    let panes = seq![
        PaneId(1),
        PaneId(2),
        PaneId(3),
        PaneId(4),
        PaneId(5),
        PaneId(6),
        PaneId(7),
        PaneId(8),
    ];
    assert(consecutive_tabs(4, 1, 1).panes() =~= seq![PaneId(1)]);
    assert(consecutive_tabs(5, 2, 1).panes() =~= seq![PaneId(2)]);
    assert(consecutive_tabs(7, 3, 1).panes() =~= seq![PaneId(3)]);
    assert(consecutive_tabs(8, 4, 1).panes() =~= seq![PaneId(4)]);
    assert(consecutive_tabs(10, 5, 2).panes() =~= seq![PaneId(5), PaneId(6)]);
    assert(consecutive_tabs(11, 7, 2).panes() =~= seq![PaneId(7), PaneId(8)]);
    let a = even_split(3, SplitAxis::Horizontal, 5_000, consecutive_tabs(4, 1, 1), consecutive_tabs(5, 2, 1));
    let b = even_split(6, SplitAxis::Horizontal, 5_000, consecutive_tabs(7, 3, 1), consecutive_tabs(8, 4, 1));
    let c = even_split(2, SplitAxis::Vertical, 6_800, a, b);
    let d = even_split(9, SplitAxis::Vertical, 5_200, consecutive_tabs(10, 5, 2), consecutive_tabs(11, 7, 2));
    assert(t == even_split(1, SplitAxis::Horizontal, 7_200, c, d));
    assert(a.panes() =~= seq![PaneId(1), PaneId(2)]);
    assert(b.panes() =~= seq![PaneId(3), PaneId(4)]);
    assert(c.panes() =~= seq![PaneId(1), PaneId(2), PaneId(3), PaneId(4)]);
    assert(d.panes() =~= seq![PaneId(5), PaneId(6), PaneId(7), PaneId(8)]);
    assert(t.panes() =~= panes);
    assert(consecutive_tabs(4, 1, 1).node_ids() == seq![DockNodeId(4)]);
    assert(consecutive_tabs(5, 2, 1).node_ids() == seq![DockNodeId(5)]);
    assert(consecutive_tabs(7, 3, 1).node_ids() == seq![DockNodeId(7)]);
    assert(consecutive_tabs(8, 4, 1).node_ids() == seq![DockNodeId(8)]);
    assert(consecutive_tabs(10, 5, 2).node_ids() == seq![DockNodeId(10)]);
    assert(consecutive_tabs(11, 7, 2).node_ids() == seq![DockNodeId(11)]);
    assert(a.node_ids() =~= seq![DockNodeId(3), DockNodeId(4), DockNodeId(5)]);
    assert(b.node_ids() =~= seq![DockNodeId(6), DockNodeId(7), DockNodeId(8)]);
    assert(c.node_ids() =~= seq![DockNodeId(2), DockNodeId(3), DockNodeId(4), DockNodeId(5), DockNodeId(6), DockNodeId(7), DockNodeId(8)]);
    assert(d.node_ids() =~= seq![DockNodeId(9), DockNodeId(10), DockNodeId(11)]);
    let ids = seq![
        DockNodeId(1),
        DockNodeId(2),
        DockNodeId(3),
        DockNodeId(4),
        DockNodeId(5),
        DockNodeId(6),
        DockNodeId(7),
        DockNodeId(8),
        DockNodeId(9),
        DockNodeId(10),
        DockNodeId(11),
    ];
    assert(t.node_ids() =~= ids);
    assert(panes[0] == PaneId(1));
    assert forall|a: int, b: int| 0 <= a < panes.len() && 0 <= b < panes.len() && a != b implies panes[a] != panes[b] by {
        assert(panes[a] == PaneId((a + 1) as u32));
        assert(panes[b] == PaneId((b + 1) as u32));
    }
    assert forall|a: int, b: int| 0 <= a < ids.len() && 0 <= b < ids.len() && a != b implies ids[a] != ids[b] by {
        assert(ids[a] == DockNodeId((a + 1) as u64));
        assert(ids[b] == DockNodeId((b + 1) as u64));
    }
    assert forall|a: int| 0 <= a < ids.len() implies ids[a].0 < 12 && ids[a] != DockNodeId(0) by {
        assert(ids[a] == DockNodeId((a + 1) as u64));
    }
}

impl Workspace {
    /// The analytical reference layout with eight panes, focusing the first.
    pub fn analytical_default() -> (r: Workspace)
        ensures
            r@ == analytical_default_view(),
            r@.valid(),
            r@.root.panes() == seq![
                PaneId(1),
                PaneId(2),
                PaneId(3),
                PaneId(4),
                PaneId(5),
                PaneId(6),
                PaneId(7),
                PaneId(8),
            ],
    {
        proof {
            lemma_analytical_default_valid();
        }
        let images = split_node(
            2,
            SplitAxis::Vertical,
            6_800,
            split_node(
                3,
                SplitAxis::Horizontal,
                5_000,
                consecutive_tabs_node(4, 1, 1),
                consecutive_tabs_node(5, 2, 1),
            ),
            split_node(
                6,
                SplitAxis::Horizontal,
                5_000,
                consecutive_tabs_node(7, 3, 1),
                consecutive_tabs_node(8, 4, 1),
            ),
        );
        let tools = split_node(
            9,
            SplitAxis::Vertical,
            5_200,
            consecutive_tabs_node(10, 5, 2),
            consecutive_tabs_node(11, 7, 2),
        );
        let closed = BTreeSet::new();
        Workspace {
            schema_version: LAYOUT_SCHEMA_VERSION,
            root: split_node(1, SplitAxis::Horizontal, 7_200, images, tools),
            active_pane: PaneId(1),
            closed_optional_panes: closed,
            next_node_id: 12,
        }
    }
}

} // verus!
