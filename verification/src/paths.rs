//! Lexical path normalisation, and the rule that destructive tool output
//! stays beneath the repository's own tools directory.
use vstd::prelude::*;

use crate::strings::{chars_of, push_str, string_from_chars};

verus! {

/// One component of a path.
#[derive(Debug, PartialEq, Eq)]
pub enum PathComponent {
    /// The filesystem root.
    Root,
    /// `.`
    Current,
    /// `..`
    Parent,
    /// A named directory or file.
    Normal(String),
}

pub enum ComponentView {
    Root,
    Current,
    Parent,
    Normal(Seq<char>),
}

impl View for PathComponent {
    type V = ComponentView;

    open spec fn view(&self) -> ComponentView {
        match self {
            PathComponent::Root => ComponentView::Root,
            PathComponent::Current => ComponentView::Current,
            PathComponent::Parent => ComponentView::Parent,
            PathComponent::Normal(name) => ComponentView::Normal(name@),
        }
    }
}

pub open spec fn component_views(components: Seq<PathComponent>) -> Seq<ComponentView> {
    components.map_values(|c: PathComponent| c@)
}

/// The components of an absolute path with `.` dropped and each `..`
/// removing the component before it, from the components before `k`; none
/// where a `..` would leave the root.
pub open spec fn normalised_prefix(components: Seq<ComponentView>, k: int) -> Option<Seq<ComponentView>>
    decreases k,
{
    if k <= 0 {
        Some(Seq::empty())
    } else {
        match normalised_prefix(components, k - 1) {
            None => None,
            Some(done) => match components[k - 1] {
                ComponentView::Current => Some(done),
                ComponentView::Parent => if done.len() <= 1 {
                    None
                } else {
                    Some(done.drop_last())
                },
                other => Some(done.push(other)),
            },
        }
    }
}

/// What normalising a path gives: its lexical normal form, or why there is
/// none.
pub open spec fn normalised(components: Seq<ComponentView>, display: Seq<char>) -> Result<Seq<ComponentView>, Seq<char>> {
    if components.len() == 0 || !(components[0] is Root) {
        Err("expected an absolute path, observed "@ + display)
    } else {
        match normalised_prefix(components, components.len() as int) {
            Some(done) => Ok(done),
            None => Err("path escapes the filesystem root: "@ + display),
        }
    }
}

fn copy_component(component: &PathComponent) -> (r: PathComponent)
    ensures
        r@ == component@,
{
    match component {
        PathComponent::Root => PathComponent::Root,
        PathComponent::Current => PathComponent::Current,
        PathComponent::Parent => PathComponent::Parent,
        PathComponent::Normal(name) => PathComponent::Normal(name.clone()),
    }
}

/// The lexical normal form of an absolute path given by its components;
/// `display` is how the path is shown in an error.
pub fn normalise_absolute(components: &Vec<PathComponent>, display: &str) -> (r: Result<Vec<PathComponent>, String>)
    ensures
        match normalised(component_views(components@), display@) {
            Ok(done) => r matches Ok(v) && component_views(v@) == done,
            Err(message) => r matches Err(e) && e@ == message,
        },
{
    let ghost all = component_views(components@);
    let absolute = components.len() > 0 && match &components[0] {
        PathComponent::Root => true,
        _ => false,
    };
    if !absolute {
        let mut message = chars_of("expected an absolute path, observed ");
        push_str(&mut message, display);
        return Err(string_from_chars(&message));
    }
    let mut done: Vec<PathComponent> = Vec::new();
    let mut k: usize = 0;
    while k < components.len()
        invariant
            0 <= k <= components@.len(),
            all == component_views(components@),
            all.len() > 0 && all[0] is Root,
            normalised_prefix(all, k as int) == Some(component_views(done@)),
        decreases components@.len() - k,
    {
        let ghost before = done@;
        match &components[k] {
            PathComponent::Current => {},
            PathComponent::Parent => {
                if done.len() <= 1 {
                    proof {
                        lemma_escape_is_final(all, k as int + 1);
                    }
                    let mut message = chars_of("path escapes the filesystem root: ");
                    push_str(&mut message, display);
                    return Err(string_from_chars(&message));
                }
                done.pop();
                proof {
                    assert(component_views(done@) =~= component_views(before).drop_last());
                }
            },
            other => {
                let copy = copy_component(other);
                done.push(copy);
                proof {
                    assert(component_views(done@) =~= component_views(before).push(copy@));
                }
            },
        }
        k = k + 1;
    }
    Ok(done)
}

proof fn lemma_escape_is_final(components: Seq<ComponentView>, k: int)
    requires
        0 <= k <= components.len(),
        normalised_prefix(components, k) is None,
    ensures
        normalised_prefix(components, components.len() as int) is None,
    decreases components.len() - k,
{
    if k < components.len() {
        lemma_escape_is_final(components, k + 1);
    }
}

/// `path` lies strictly beneath `root`: it begins with every component of
/// `root` and has more.
pub open spec fn strictly_beneath(path: Seq<ComponentView>, root: Seq<ComponentView>) -> bool {
    path.len() > root.len() && path.subrange(0, root.len() as int) == root
}

fn same_component(a: &PathComponent, b: &PathComponent) -> (r: bool)
    ensures
        r == (a@ == b@),
{
    match (a, b) {
        (PathComponent::Root, PathComponent::Root) => true,
        (PathComponent::Current, PathComponent::Current) => true,
        (PathComponent::Parent, PathComponent::Parent) => true,
        (PathComponent::Normal(x), PathComponent::Normal(y)) => crate::strings::str_equal(x.as_str(), y.as_str()),
        _ => false,
    }
}

/// Whether `path` lies strictly beneath `root`.
pub fn is_strictly_beneath(path: &Vec<PathComponent>, root: &Vec<PathComponent>) -> (r: bool)
    ensures
        r == strictly_beneath(component_views(path@), component_views(root@)),
{
    if path.len() <= root.len() {
        return false;
    }
    let mut i: usize = 0;
    while i < root.len()
        invariant
            root.len() < path.len(),
            0 <= i <= root@.len(),
            forall|j: int| 0 <= j < i ==> component_views(path@)[j] == component_views(root@)[j],
        decreases root@.len() - i,
    {
        if !same_component(&path[i], &root[i]) {
            proof {
                assert(component_views(path@).subrange(0, root@.len() as int)[i as int] != component_views(root@)[i as int]);
            }
            return false;
        }
        i = i + 1;
    }
    proof {
        assert(component_views(path@).subrange(0, root@.len() as int) =~= component_views(root@));
    }
    true
}

} // verus!
