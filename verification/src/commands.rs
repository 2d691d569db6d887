//! Image intents become validated commands; commands are applied to and
//! reverted from the document and the session, and kept in an undo history.
//!
//! Coordinates are carried through unchanged, so a point holds the IEEE-754
//! bit patterns of its two `f64` coordinates.
use vstd::prelude::*;

use crate::ids::{AnnotationId, LayerId, LinkGroupId, PaneId, ResultId};
use crate::strings::owned;

verus! {

/// A point in world coordinates, as the bit patterns of its `f64` coordinates.
#[derive(Clone, Copy, Debug, Default, PartialEq, Eq, Structural)]
pub struct WorldPoint {
    pub x_bits: u64,
    pub y_bits: u64,
}

/// A point in image coordinates, as the bit patterns of its `f64` coordinates.
#[derive(Clone, Copy, Debug, Default, PartialEq, Eq, Structural)]
pub struct ImagePoint {
    pub x_bits: u64,
    pub y_bits: u64,
}

/// Where a viewport looks: its centre and its zoom (image pixels per screen
/// point, as the bit pattern of an `f64`).
#[derive(Clone, Copy, Debug, Default, PartialEq, Eq, Structural)]
pub struct Camera {
    pub centre: ImagePoint,
    pub pixels_per_screen_point_bits: u64,
}

/// The camera of one image pane and the link group it moves with.
#[derive(Clone, Copy, Debug, PartialEq, Eq, Structural)]
pub struct CameraState {
    pub pane: PaneId,
    pub camera: Camera,
    pub link: Option<LinkGroupId>,
}

/// A closed annotation polygon on a layer.
#[derive(Debug, PartialEq)]
pub struct Polygon {
    pub id: AnnotationId,
    pub layer: LayerId,
    pub vertices: Vec<WorldPoint>,
}

#[verifier::ext_equal]
pub struct PolygonView {
    pub id: AnnotationId,
    pub layer: LayerId,
    pub vertices: Seq<WorldPoint>,
}

impl View for Polygon {
    type V = PolygonView;

    open spec fn view(&self) -> PolygonView {
        PolygonView { id: self.id, layer: self.layer, vertices: self.vertices@ }
    }
}

/// The views of a sequence of polygons, in order.
pub open spec fn polygon_views(polygons: Seq<Polygon>) -> Seq<PolygonView> {
    polygons.map_values(|p: Polygon| p@)
}

fn copy_points(points: &Vec<WorldPoint>) -> (r: Vec<WorldPoint>)
    ensures
        r@ == points@,
{
    let mut r: Vec<WorldPoint> = Vec::new();
    let mut i: usize = 0;
    while i < points.len()
        invariant
            0 <= i <= points.len(),
            r@ =~= points@.subrange(0, i as int),
        decreases points.len() - i,
    {
        r.push(points[i]);
        i = i + 1;
    }
    assert(r@ =~= points@);
    r
}

impl Polygon {
    /// A separate copy of this polygon.
    pub fn duplicate(&self) -> (r: Polygon)
        ensures
            r@ == self@,
    {
        Polygon { id: self.id, layer: self.layer, vertices: copy_points(&self.vertices) }
    }
}

impl Clone for Polygon {
    fn clone(&self) -> (r: Self)
        ensures
            r@ == self@,
    {
        self.duplicate()
    }
}

/// The annotations of the open image.
#[derive(Debug, PartialEq)]
pub struct Document {
    pub annotations: Vec<Polygon>,
    pub next_annotation_id: u64,
}

#[verifier::ext_equal]
pub struct DocumentView {
    pub annotations: Seq<PolygonView>,
    pub next_annotation_id: u64,
}

impl View for Document {
    type V = DocumentView;

    open spec fn view(&self) -> DocumentView {
        DocumentView {
            annotations: polygon_views(self.annotations@),
            next_annotation_id: self.next_annotation_id,
        }
    }
}

impl Default for Document {
    fn default() -> (r: Self)
        ensures
            r@.annotations == Seq::<PolygonView>::empty(),
            r@.next_annotation_id == 1,
    {
        let r = Document { annotations: Vec::new(), next_annotation_id: 1 };
        assert(r@.annotations =~= Seq::<PolygonView>::empty());
        r
    }
}

/// An uncommitted pointer gesture.
#[derive(Debug, PartialEq)]
pub enum GesturePreview {
    Polygon { layer: LayerId, vertices: Vec<WorldPoint> },
    Vertex { annotation: AnnotationId, vertex: usize, original: WorldPoint, preview: WorldPoint },
}

pub enum GestureView {
    Polygon { layer: LayerId, vertices: Seq<WorldPoint> },
    Vertex { annotation: AnnotationId, vertex: usize, original: WorldPoint, preview: WorldPoint },
}

impl View for GesturePreview {
    type V = GestureView;

    open spec fn view(&self) -> GestureView {
        match self {
            GesturePreview::Polygon { layer, vertices } => GestureView::Polygon {
                layer: *layer,
                vertices: vertices@,
            },
            GesturePreview::Vertex { annotation, vertex, original, preview } => GestureView::Vertex {
                annotation: *annotation,
                vertex: *vertex,
                original: *original,
                preview: *preview,
            },
        }
    }
}

pub open spec fn gesture_view(gesture: Option<GesturePreview>) -> Option<GestureView> {
    match gesture {
        Some(g) => Some(g@),
        None => None,
    }
}

/// Interaction state that is not part of the document.
#[derive(Debug, PartialEq)]
pub struct Session {
    pub cameras: Vec<CameraState>,
    pub selected_result: Option<ResultId>,
    pub selected_annotation: Option<AnnotationId>,
    pub gesture: Option<GesturePreview>,
}

#[verifier::ext_equal]
pub struct SessionView {
    pub cameras: Seq<CameraState>,
    pub selected_result: Option<ResultId>,
    pub selected_annotation: Option<AnnotationId>,
    pub gesture: Option<GestureView>,
}

impl View for Session {
    type V = SessionView;

    open spec fn view(&self) -> SessionView {
        SessionView {
            cameras: self.cameras@,
            selected_result: self.selected_result,
            selected_annotation: self.selected_annotation,
            gesture: gesture_view(self.gesture),
        }
    }
}

impl Default for Session {
    fn default() -> (r: Self)
        ensures
            r@.cameras == Seq::<CameraState>::empty(),
            r@.selected_result is None,
            r@.selected_annotation is None,
            r@.gesture is None,
    {
        Session {
            cameras: Vec::new(),
            selected_result: None,
            selected_annotation: None,
            gesture: None,
        }
    }
}

/// What a user asked for, before it is checked against the document.
#[derive(Debug, PartialEq)]
pub enum ImageIntent {
    SetCamera { pane: PaneId, camera: Camera },
    SetCameraLink { pane: PaneId, link: Option<LinkGroupId> },
    CommitPolygon { layer: LayerId, vertices: Vec<WorldPoint> },
    MoveVertex { annotation: AnnotationId, vertex: usize, to: WorldPoint },
    DeleteAnnotation { annotation: AnnotationId },
    SelectResult { result: ResultId },
    /// Centre `pane` on a result, which lies at `position` in the image.
    RecenterOnResult { result: ResultId, pane: PaneId, position: ImagePoint },
}

pub enum IntentView {
    SetCamera { pane: PaneId, camera: Camera },
    SetCameraLink { pane: PaneId, link: Option<LinkGroupId> },
    CommitPolygon { layer: LayerId, vertices: Seq<WorldPoint> },
    MoveVertex { annotation: AnnotationId, vertex: usize, to: WorldPoint },
    DeleteAnnotation { annotation: AnnotationId },
    SelectResult { result: ResultId },
    RecenterOnResult { result: ResultId, pane: PaneId, position: ImagePoint },
}

impl View for ImageIntent {
    type V = IntentView;

    open spec fn view(&self) -> IntentView {
        match self {
            ImageIntent::SetCamera { pane, camera } => IntentView::SetCamera {
                pane: *pane,
                camera: *camera,
            },
            ImageIntent::SetCameraLink { pane, link } => IntentView::SetCameraLink {
                pane: *pane,
                link: *link,
            },
            ImageIntent::CommitPolygon { layer, vertices } => IntentView::CommitPolygon {
                layer: *layer,
                vertices: vertices@,
            },
            ImageIntent::MoveVertex { annotation, vertex, to } => IntentView::MoveVertex {
                annotation: *annotation,
                vertex: *vertex,
                to: *to,
            },
            ImageIntent::DeleteAnnotation { annotation } => IntentView::DeleteAnnotation {
                annotation: *annotation,
            },
            ImageIntent::SelectResult { result } => IntentView::SelectResult { result: *result },
            ImageIntent::RecenterOnResult { result, pane, position } =>
                IntentView::RecenterOnResult { result: *result, pane: *pane, position: *position },
        }
    }
}

/// A validated, undoable change, holding what it needs to be reverted.
#[derive(Debug, PartialEq)]
#[allow(inconsistent_fields)]
pub enum Command {
    SetCamera { pane: PaneId, before: Camera, after: Camera },
    SetCameraLink { pane: PaneId, before: Option<LinkGroupId>, after: Option<LinkGroupId> },
    AddPolygon { polygon: Polygon },
    MoveVertex { annotation: AnnotationId, vertex: usize, before: WorldPoint, after: WorldPoint },
    DeletePolygon { polygon: Polygon, index: usize },
    SelectResult { before: Option<ResultId>, after: Option<ResultId> },
}

#[allow(inconsistent_fields)]
pub enum CommandView {
    SetCamera { pane: PaneId, before: Camera, after: Camera },
    SetCameraLink { pane: PaneId, before: Option<LinkGroupId>, after: Option<LinkGroupId> },
    AddPolygon { polygon: PolygonView },
    MoveVertex { annotation: AnnotationId, vertex: usize, before: WorldPoint, after: WorldPoint },
    DeletePolygon { polygon: PolygonView, index: usize },
    SelectResult { before: Option<ResultId>, after: Option<ResultId> },
}

impl View for Command {
    type V = CommandView;

    open spec fn view(&self) -> CommandView {
        match self {
            Command::SetCamera { pane, before, after } => CommandView::SetCamera {
                pane: *pane,
                before: *before,
                after: *after,
            },
            Command::SetCameraLink { pane, before, after } => CommandView::SetCameraLink {
                pane: *pane,
                before: *before,
                after: *after,
            },
            Command::AddPolygon { polygon } => CommandView::AddPolygon { polygon: polygon@ },
            Command::MoveVertex { annotation, vertex, before, after } => CommandView::MoveVertex {
                annotation: *annotation,
                vertex: *vertex,
                before: *before,
                after: *after,
            },
            Command::DeletePolygon { polygon, index } => CommandView::DeletePolygon {
                polygon: polygon@,
                index: *index,
            },
            Command::SelectResult { before, after } => CommandView::SelectResult {
                before: *before,
                after: *after,
            },
        }
    }
}

pub open spec fn command_view(c: Command) -> CommandView {
    c@
}

/// `i` is the first camera state of `pane`.
pub open spec fn is_first_camera(cameras: Seq<CameraState>, pane: PaneId, i: int) -> bool {
    &&& 0 <= i < cameras.len()
    &&& cameras[i].pane == pane
    &&& forall|j: int| 0 <= j < i ==> cameras[j].pane != pane
}

/// The position of the first camera state of `pane`, if any.
pub open spec fn camera_index(cameras: Seq<CameraState>, pane: PaneId) -> Option<int> {
    if exists|i: int| 0 <= i < cameras.len() && cameras[i].pane == pane {
        Some(choose|i: int| is_first_camera(cameras, pane, i))
    } else {
        None
    }
}

/// `i` is the first annotation with ID `id`.
pub open spec fn is_first_annotation(annotations: Seq<PolygonView>, id: AnnotationId, i: int) -> bool {
    &&& 0 <= i < annotations.len()
    &&& annotations[i].id == id
    &&& forall|j: int| 0 <= j < i ==> annotations[j].id != id
}

/// The position of the first annotation with ID `id`, if any.
pub open spec fn annotation_index(annotations: Seq<PolygonView>, id: AnnotationId) -> Option<int> {
    if exists|i: int| 0 <= i < annotations.len() && annotations[i].id == id {
        Some(choose|i: int| is_first_annotation(annotations, id, i))
    } else {
        None
    }
}

/// The link group of the first camera state of `pane`.
pub open spec fn link_of(cameras: Seq<CameraState>, pane: PaneId) -> Option<LinkGroupId> {
    match camera_index(cameras, pane) {
        Some(i) => cameras[i].link,
        None => None,
    }
}

/// `state` moves together with the camera of `pane`: it is a state of that
/// pane, or shares the pane's link group.
pub open spec fn moves_with(state: CameraState, pane: PaneId, link: Option<LinkGroupId>) -> bool {
    state.pane == pane || (link is Some && state.link == link)
}

/// Every camera of `pane` and of the panes linked with it set to `camera`.
pub open spec fn propagated(cameras: Seq<CameraState>, pane: PaneId, camera: Camera) -> Seq<CameraState> {
    let link = link_of(cameras, pane);
    Seq::new(
        cameras.len(),
        |i: int|
            if moves_with(cameras[i], pane, link) {
                CameraState { pane: cameras[i].pane, camera, link: cameras[i].link }
            } else {
                cameras[i]
            },
    )
}

/// The first camera state of `pane` joined to `link`.
pub open spec fn relinked(cameras: Seq<CameraState>, pane: PaneId, link: Option<LinkGroupId>) -> Seq<CameraState> {
    match camera_index(cameras, pane) {
        Some(i) => cameras.update(
            i,
            CameraState { pane: cameras[i].pane, camera: cameras[i].camera, link },
        ),
        None => cameras,
    }
}

/// The annotations without any polygon with ID `id`, in order.
pub open spec fn without_annotation(annotations: Seq<PolygonView>, id: AnnotationId) -> Seq<PolygonView>
    decreases annotations.len(),
{
    if annotations.len() == 0 {
        annotations
    } else {
        let rest = without_annotation(annotations.drop_last(), id);
        if annotations.last().id == id {
            rest
        } else {
            rest.push(annotations.last())
        }
    }
}

/// The first polygon with ID `id` with vertex `vertex` moved to `to`.
pub open spec fn with_vertex(annotations: Seq<PolygonView>, id: AnnotationId, vertex: usize, to: WorldPoint) -> Seq<PolygonView> {
    match annotation_index(annotations, id) {
        Some(i) => annotations.update(
            i,
            PolygonView {
                id: annotations[i].id,
                layer: annotations[i].layer,
                vertices: annotations[i].vertices.update(vertex as int, to),
            },
        ),
        None => annotations,
    }
}

/// The document and session after applying `command`.
pub open spec fn applied(command: CommandView, document: DocumentView, session: SessionView) -> (DocumentView, SessionView) {
    match command {
        CommandView::SetCamera { pane, after, .. } => (
            document,
            SessionView { cameras: propagated(session.cameras, pane, after), ..session },
        ),
        CommandView::SetCameraLink { pane, after, .. } => (
            document,
            SessionView { cameras: relinked(session.cameras, pane, after), ..session },
        ),
        CommandView::AddPolygon { polygon } => (
            DocumentView { annotations: document.annotations.push(polygon), ..document },
            SessionView { selected_annotation: Some(polygon.id), ..session },
        ),
        CommandView::MoveVertex { annotation, vertex, after, .. } => (
            DocumentView {
                annotations: with_vertex(document.annotations, annotation, vertex, after),
                ..document
            },
            session,
        ),
        CommandView::DeletePolygon { polygon, .. } => (
            DocumentView {
                annotations: without_annotation(document.annotations, polygon.id),
                ..document
            },
            SessionView {
                selected_annotation: if session.selected_annotation == Some(polygon.id) {
                    None
                } else {
                    session.selected_annotation
                },
                ..session
            },
        ),
        CommandView::SelectResult { after, .. } => (
            document,
            SessionView { selected_result: after, ..session },
        ),
    }
}

/// The document and session after reverting `command`.
pub open spec fn reverted(command: CommandView, document: DocumentView, session: SessionView) -> (DocumentView, SessionView) {
    match command {
        CommandView::SetCamera { pane, before, .. } => (
            document,
            SessionView { cameras: propagated(session.cameras, pane, before), ..session },
        ),
        CommandView::SetCameraLink { pane, before, .. } => (
            document,
            SessionView { cameras: relinked(session.cameras, pane, before), ..session },
        ),
        CommandView::AddPolygon { polygon } => (
            DocumentView {
                annotations: without_annotation(document.annotations, polygon.id),
                ..document
            },
            SessionView { selected_annotation: None, ..session },
        ),
        CommandView::MoveVertex { annotation, vertex, before, .. } => (
            DocumentView {
                annotations: with_vertex(document.annotations, annotation, vertex, before),
                ..document
            },
            session,
        ),
        CommandView::DeletePolygon { polygon, index } => (
            DocumentView {
                annotations: document.annotations.insert(
                    if index <= document.annotations.len() {
                        index as int
                    } else {
                        document.annotations.len() as int
                    },
                    polygon,
                ),
                ..document
            },
            SessionView { selected_annotation: Some(polygon.id), ..session },
        ),
        CommandView::SelectResult { before, .. } => (
            document,
            SessionView { selected_result: before, ..session },
        ),
    }
}

/// Moving a vertex of a polygon that exists names one of its vertices.
pub open spec fn vertex_in_range(annotations: Seq<PolygonView>, annotation: AnnotationId, vertex: usize) -> bool {
    match annotation_index(annotations, annotation) {
        Some(i) => vertex < annotations[i].vertices.len(),
        None => true,
    }
}

/// `command` can be applied to or reverted from `document` without panicking.
pub open spec fn command_fits(command: CommandView, document: DocumentView) -> bool {
    match command {
        CommandView::MoveVertex { annotation, vertex, .. } => vertex_in_range(
            document.annotations,
            annotation,
            vertex,
        ),
        _ => true,
    }
}

proof fn lemma_camera_index(cameras: Seq<CameraState>, pane: PaneId, i: int)
    requires
        is_first_camera(cameras, pane, i),
    ensures
        camera_index(cameras, pane) == Some(i),
{
    let k = choose|k: int| is_first_camera(cameras, pane, k);
    assert(is_first_camera(cameras, pane, k));
    if k < i {
        assert(cameras[k].pane != pane);
    } else if i < k {
        assert(cameras[i].pane != pane);
    }
}

proof fn lemma_annotation_index(annotations: Seq<PolygonView>, id: AnnotationId, i: int)
    requires
        is_first_annotation(annotations, id, i),
    ensures
        annotation_index(annotations, id) == Some(i),
{
    let k = choose|k: int| is_first_annotation(annotations, id, k);
    assert(is_first_annotation(annotations, id, k));
    if k < i {
        assert(annotations[k].id != id);
    } else if i < k {
        assert(annotations[i].id != id);
    }
}

fn find_camera(cameras: &Vec<CameraState>, pane: PaneId) -> (r: Option<usize>)
    ensures
        match r {
            Some(i) => camera_index(cameras@, pane) == Some(i as int) && i < cameras.len(),
            None => camera_index(cameras@, pane) is None,
        },
{
    let mut i: usize = 0;
    while i < cameras.len()
        invariant
            0 <= i <= cameras.len(),
            forall|j: int| 0 <= j < i ==> cameras@[j].pane != pane,
        decreases cameras.len() - i,
    {
        if cameras[i].pane == pane {
            proof {
                lemma_camera_index(cameras@, pane, i as int);
            }
            return Some(i);
        }
        i = i + 1;
    }
    None
}

fn find_annotation(annotations: &Vec<Polygon>, id: AnnotationId) -> (r: Option<usize>)
    ensures
        match r {
            Some(i) => annotation_index(polygon_views(annotations@), id) == Some(
                i as int,
            ) && i < annotations.len(),
            None => annotation_index(polygon_views(annotations@), id) is None,
        },
{
    let ghost views = polygon_views(annotations@);
    let mut i: usize = 0;
    while i < annotations.len()
        invariant
            0 <= i <= annotations.len(),
            views == polygon_views(annotations@),
            forall|j: int| 0 <= j < i ==> views[j].id != id,
        decreases annotations.len() - i,
    {
        if annotations[i].id == id {
            proof {
                lemma_annotation_index(views, id, i as int);
            }
            return Some(i);
        }
        i = i + 1;
    }
    None
}

/// Sets the camera of `pane`, and of every pane in its link group, to `camera`.
pub fn propagate_linked_camera(cameras: &mut Vec<CameraState>, pane: PaneId, camera: Camera)
    ensures
        final(cameras)@ == propagated(old(cameras)@, pane, camera),
{
    let link = match find_camera(cameras, pane) {
        Some(index) => cameras[index].link,
        None => None,
    };
    let ghost original = cameras@;
    let mut i: usize = 0;
    while i < cameras.len()
        invariant
            0 <= i <= cameras.len(),
            cameras.len() == original.len(),
            link == link_of(original, pane),
            forall|j: int| 0 <= j < i ==> cameras@[j] == propagated(original, pane, camera)[j],
            forall|j: int| i <= j < cameras.len() ==> cameras@[j] == original[j],
        decreases cameras.len() - i,
    {
        let state = cameras[i];
        let linked = match link {
            Some(group) => state.link == Some(group),
            None => false,
        };
        if state.pane == pane || linked {
            cameras.set(i, CameraState { pane: state.pane, camera, link: state.link });
        }
        i = i + 1;
    }
    assert(cameras@ =~= propagated(original, pane, camera));
}


/// The polygons without those with ID `id`, each kept one copied, in order.
fn without_polygon(annotations: &Vec<Polygon>, id: AnnotationId) -> (r: Vec<Polygon>)
    ensures
        polygon_views(r@) == without_annotation(polygon_views(annotations@), id),
{
    let ghost views = polygon_views(annotations@);
    let mut kept: Vec<Polygon> = Vec::new();
    let mut i: usize = 0;
    while i < annotations.len()
        invariant
            0 <= i <= annotations.len(),
            views == polygon_views(annotations@),
            polygon_views(kept@) == without_annotation(views.subrange(0, i as int), id),
        decreases annotations.len() - i,
    {
        proof {
            assert(views.subrange(0, i as int + 1).drop_last() =~= views.subrange(0, i as int));
        }
        if annotations[i].id != id {
            let ghost before = kept@;
            let copy = annotations[i].duplicate();
            kept.push(copy);
            proof {
                assert(polygon_views(kept@) =~= polygon_views(before).push(views[i as int]));
            }
        }
        i = i + 1;
    }
    proof {
        assert(views.subrange(0, views.len() as int) =~= views);
    }
    kept
}

/// Moves vertex `vertex` of the first polygon with ID `id` to `to`.
fn set_vertex(annotations: &mut Vec<Polygon>, id: AnnotationId, vertex: usize, to: WorldPoint)
    requires
        vertex_in_range(polygon_views(old(annotations)@), id, vertex),
    ensures
        polygon_views(final(annotations)@) == with_vertex(
            polygon_views(old(annotations)@),
            id,
            vertex,
            to,
        ),
{
    match find_annotation(annotations, id) {
        Some(i) => {
            let ghost original = annotations@;
            let mut polygon = annotations.remove(i);
            polygon.vertices.set(vertex, to);
            annotations.insert(i, polygon);
            proof {
                assert(annotations@ =~= original.update(i as int, polygon));
                assert(polygon_views(annotations@) =~= with_vertex(
                    polygon_views(original),
                    id,
                    vertex,
                    to,
                ));
            }
        },
        None => {},
    }
}

/// Joins the first camera state of `pane` to `link`.
fn set_link(cameras: &mut Vec<CameraState>, pane: PaneId, link: Option<LinkGroupId>)
    ensures
        final(cameras)@ == relinked(old(cameras)@, pane, link),
{
    match find_camera(cameras, pane) {
        Some(i) => {
            let state = cameras[i];
            cameras.set(i, CameraState { pane: state.pane, camera: state.camera, link });
        },
        None => {},
    }
}

/// The selection with `id` cleared, if it was selected.
fn deselected(selected: Option<AnnotationId>, id: AnnotationId) -> (r: Option<AnnotationId>)
    ensures
        r == (if selected == Some(id) {
            None
        } else {
            selected
        }),
{
    match selected {
        Some(current) => if current == id {
            None
        } else {
            selected
        },
        None => None,
    }
}

/// Applies `command` to the document and the session.
pub fn apply(command: &Command, document: &mut Document, session: &mut Session)
    requires
        command_fits(command@, old(document)@),
    ensures
        (final(document)@, final(session)@) == applied(command@, old(document)@, old(session)@),
{
    match command {
        Command::SetCamera { pane, after, .. } => {
            propagate_linked_camera(&mut session.cameras, *pane, *after);
        },
        Command::SetCameraLink { pane, after, .. } => {
            set_link(&mut session.cameras, *pane, *after);
        },
        Command::AddPolygon { polygon } => {
            let ghost original = document.annotations@;
            document.annotations.push(polygon.duplicate());
            session.selected_annotation = Some(polygon.id);
            proof {
                assert(polygon_views(document.annotations@) =~= polygon_views(original).push(
                    polygon@,
                ));
            }
        },
        Command::MoveVertex { annotation, vertex, after, .. } => {
            set_vertex(&mut document.annotations, *annotation, *vertex, *after);
        },
        Command::DeletePolygon { polygon, .. } => {
            document.annotations = without_polygon(&document.annotations, polygon.id);
            session.selected_annotation = deselected(session.selected_annotation, polygon.id);
        },
        Command::SelectResult { after, .. } => {
            session.selected_result = *after;
        },
    }
    proof {
        assert(document@ =~= applied(command@, old(document)@, old(session)@).0);
        assert(session@ =~= applied(command@, old(document)@, old(session)@).1);
    }
}

/// Reverts `command` from the document and the session.
pub fn revert(command: &Command, document: &mut Document, session: &mut Session)
    requires
        command_fits(command@, old(document)@),
    ensures
        (final(document)@, final(session)@) == reverted(command@, old(document)@, old(session)@),
{
    match command {
        Command::SetCamera { pane, before, .. } => {
            propagate_linked_camera(&mut session.cameras, *pane, *before);
        },
        Command::SetCameraLink { pane, before, .. } => {
            set_link(&mut session.cameras, *pane, *before);
        },
        Command::AddPolygon { polygon } => {
            document.annotations = without_polygon(&document.annotations, polygon.id);
            session.selected_annotation = None;
        },
        Command::MoveVertex { annotation, vertex, before, .. } => {
            set_vertex(&mut document.annotations, *annotation, *vertex, *before);
        },
        Command::DeletePolygon { polygon, index } => {
            let ghost original = document.annotations@;
            let at = if *index <= document.annotations.len() {
                *index
            } else {
                document.annotations.len()
            };
            document.annotations.insert(at, polygon.duplicate());
            session.selected_annotation = Some(polygon.id);
            proof {
                assert(polygon_views(document.annotations@) =~= polygon_views(original).insert(
                    at as int,
                    polygon@,
                ));
            }
        },
        Command::SelectResult { before, .. } => {
            session.selected_result = *before;
        },
    }
    proof {
        assert(document@ =~= reverted(command@, old(document)@, old(session)@).0);
        assert(session@ =~= reverted(command@, old(document)@, old(session)@).1);
    }
}


/// What validating `intent` against the document and the session gives: the
/// command, or the reason it was refused.
pub open spec fn validation(intent: IntentView, document: DocumentView, session: SessionView) -> Result<CommandView, Seq<char>> {
    match intent {
        IntentView::SetCamera { pane, camera } => match camera_index(session.cameras, pane) {
            Some(i) => Ok(
                CommandView::SetCamera { pane, before: session.cameras[i].camera, after: camera },
            ),
            None => Err("unknown camera pane"@),
        },
        IntentView::SetCameraLink { pane, link } => match camera_index(session.cameras, pane) {
            Some(i) => Ok(
                CommandView::SetCameraLink { pane, before: session.cameras[i].link, after: link },
            ),
            None => Err("unknown camera pane"@),
        },
        IntentView::CommitPolygon { layer, vertices } => if vertices.len() < 3 {
            Err("a polygon needs at least three vertices"@)
        } else {
            Ok(
                CommandView::AddPolygon {
                    polygon: PolygonView {
                        id: AnnotationId(document.next_annotation_id),
                        layer,
                        vertices,
                    },
                },
            )
        },
        IntentView::MoveVertex { annotation, vertex, to } => match annotation_index(
            document.annotations,
            annotation,
        ) {
            Some(i) => if vertex < document.annotations[i].vertices.len() {
                Ok(
                    CommandView::MoveVertex {
                        annotation,
                        vertex,
                        before: document.annotations[i].vertices[vertex as int],
                        after: to,
                    },
                )
            } else {
                Err("unknown vertex"@)
            },
            None => Err("unknown annotation"@),
        },
        IntentView::DeleteAnnotation { annotation } => match annotation_index(
            document.annotations,
            annotation,
        ) {
            Some(i) => Ok(
                CommandView::DeletePolygon { polygon: document.annotations[i], index: i as usize },
            ),
            None => Err("unknown annotation"@),
        },
        IntentView::SelectResult { result } => Ok(
            CommandView::SelectResult { before: session.selected_result, after: Some(result) },
        ),
        IntentView::RecenterOnResult { result, pane, position } => match camera_index(
            session.cameras,
            pane,
        ) {
            Some(i) => Ok(
                CommandView::SetCamera {
                    pane,
                    before: session.cameras[i].camera,
                    after: Camera {
                        centre: position,
                        pixels_per_screen_point_bits: session.cameras[i].camera.pixels_per_screen_point_bits,
                    },
                },
            ),
            None => Err("unknown camera pane"@),
        },
    }
}

/// `intent` adds a polygon to the document when it is accepted.
pub open spec fn adds_polygon(intent: IntentView) -> bool {
    intent matches IntentView::CommitPolygon { vertices, .. } && vertices.len() >= 3
}

/// The document after validating `intent`: an accepted polygon takes the next
/// annotation ID.
pub open spec fn after_validation(intent: IntentView, document: DocumentView) -> DocumentView {
    if adds_polygon(intent) {
        DocumentView { next_annotation_id: (document.next_annotation_id + 1) as u64, ..document }
    } else {
        document
    }
}

/// Turns `intent` into a command, checked against the document and the
/// session. An accepted polygon takes the document's next annotation ID.
pub fn validate_intent(intent: ImageIntent, document: &mut Document, session: &Session) -> (r: Result<Command, String>)
    requires
        adds_polygon(intent@) ==> old(document).next_annotation_id < u64::MAX,
    ensures
        match r {
            Ok(command) => validation(intent@, old(document)@, session@) == Ok::<CommandView, Seq<char>>(command@),
            Err(message) => validation(intent@, old(document)@, session@) == Err::<CommandView, Seq<char>>(message@),
        },
        final(document)@ == after_validation(intent@, old(document)@),
{
    let ghost views = document@;
    match intent {
        ImageIntent::SetCamera { pane, camera } => match find_camera(&session.cameras, pane) {
            Some(i) => Ok(Command::SetCamera { pane, before: session.cameras[i].camera, after: camera }),
            None => Err(owned("unknown camera pane")),
        },
        ImageIntent::SetCameraLink { pane, link } => match find_camera(&session.cameras, pane) {
            Some(i) => Ok(Command::SetCameraLink { pane, before: session.cameras[i].link, after: link }),
            None => Err(owned("unknown camera pane")),
        },
        ImageIntent::CommitPolygon { layer, vertices } => {
            if vertices.len() < 3 {
                return Err(owned("a polygon needs at least three vertices"));
            }
            let id = AnnotationId(document.next_annotation_id);
            document.next_annotation_id = document.next_annotation_id + 1;
            Ok(Command::AddPolygon { polygon: Polygon { id, layer, vertices } })
        },
        ImageIntent::MoveVertex { annotation, vertex, to } => match find_annotation(
            &document.annotations,
            annotation,
        ) {
            Some(i) => {
                if vertex < document.annotations[i].vertices.len() {
                    let before = document.annotations[i].vertices[vertex];
                    Ok(Command::MoveVertex { annotation, vertex, before, after: to })
                } else {
                    Err(owned("unknown vertex"))
                }
            },
            None => Err(owned("unknown annotation")),
        },
        ImageIntent::DeleteAnnotation { annotation } => match find_annotation(
            &document.annotations,
            annotation,
        ) {
            Some(i) => Ok(Command::DeletePolygon { polygon: document.annotations[i].duplicate(), index: i }),
            None => Err(owned("unknown annotation")),
        },
        ImageIntent::SelectResult { result } => Ok(
            Command::SelectResult { before: session.selected_result, after: Some(result) },
        ),
        ImageIntent::RecenterOnResult { result, pane, position } => match find_camera(
            &session.cameras,
            pane,
        ) {
            Some(i) => {
                let before = session.cameras[i].camera;
                let after = Camera {
                    centre: position,
                    pixels_per_screen_point_bits: before.pixels_per_screen_point_bits,
                };
                Ok(Command::SetCamera { pane, before, after })
            },
            None => Err(owned("unknown camera pane")),
        },
    }
}

/// What committing the active gesture gives: the command, or the reason it
/// was refused.
pub open spec fn gesture_outcome(document: DocumentView, session: SessionView) -> Result<CommandView, Seq<char>> {
    match session.gesture {
        None => Err("no active gesture"@),
        Some(GestureView::Polygon { layer, vertices }) => validation(
            IntentView::CommitPolygon { layer, vertices },
            document,
            SessionView { gesture: None, ..session },
        ),
        Some(GestureView::Vertex { annotation, vertex, original, preview }) => Ok(
            CommandView::MoveVertex { annotation, vertex, before: original, after: preview },
        ),
    }
}

/// The gesture commits a polygon that is accepted.
pub open spec fn gesture_adds_polygon(gesture: Option<GestureView>) -> bool {
    gesture matches Some(GestureView::Polygon { vertices, .. }) && vertices.len() >= 3
}

/// Ends the active gesture and turns it into one command. The gesture is gone
/// afterwards, whether or not it was accepted.
pub fn commit_gesture(document: &mut Document, session: &mut Session) -> (r: Result<Command, String>)
    requires
        gesture_adds_polygon(old(session)@.gesture) ==> old(document).next_annotation_id < u64::MAX,
    ensures
        match r {
            Ok(command) => gesture_outcome(old(document)@, old(session)@) == Ok::<CommandView, Seq<char>>(command@),
            Err(message) => gesture_outcome(old(document)@, old(session)@) == Err::<CommandView, Seq<char>>(message@),
        },
        final(session)@ == (SessionView { gesture: None, ..old(session)@ }),
        final(document)@ == (if gesture_adds_polygon(old(session)@.gesture) {
            DocumentView { next_annotation_id: (old(document).next_annotation_id + 1) as u64, ..old(document)@ }
        } else {
            old(document)@
        }),
{
    match session.gesture.take() {
        None => Err(owned("no active gesture")),
        Some(GesturePreview::Polygon { layer, vertices }) => validate_intent(
            ImageIntent::CommitPolygon { layer, vertices },
            document,
            session,
        ),
        Some(GesturePreview::Vertex { annotation, vertex, original, preview }) => Ok(
            Command::MoveVertex { annotation, vertex, before: original, after: preview },
        ),
    }
}


impl Clone for Command {
    fn clone(&self) -> (r: Self)
        ensures
            r@ == self@,
    {
        match self {
            Command::SetCamera { pane, before, after } => Command::SetCamera {
                pane: *pane,
                before: *before,
                after: *after,
            },
            Command::SetCameraLink { pane, before, after } => Command::SetCameraLink {
                pane: *pane,
                before: *before,
                after: *after,
            },
            Command::AddPolygon { polygon } => Command::AddPolygon { polygon: polygon.duplicate() },
            Command::MoveVertex { annotation, vertex, before, after } => Command::MoveVertex {
                annotation: *annotation,
                vertex: *vertex,
                before: *before,
                after: *after,
            },
            Command::DeletePolygon { polygon, index } => Command::DeletePolygon {
                polygon: polygon.duplicate(),
                index: *index,
            },
            Command::SelectResult { before, after } => Command::SelectResult {
                before: *before,
                after: *after,
            },
        }
    }
}

/// The views of a sequence of commands, in order.
pub open spec fn command_views(commands: Seq<Command>) -> Seq<CommandView> {
    commands.map_values(|c: Command| c@)
}

/// The commands that can be undone, most recent last, and those that can be
/// redone, most recently undone last.
#[derive(Debug, PartialEq)]
pub struct CommandHistory {
    undo: Vec<Command>,
    redo: Vec<Command>,
}

pub struct HistoryView {
    pub undo: Seq<CommandView>,
    pub redo: Seq<CommandView>,
}

impl View for CommandHistory {
    type V = HistoryView;

    closed spec fn view(&self) -> HistoryView {
        HistoryView { undo: command_views(self.undo@), redo: command_views(self.redo@) }
    }
}

impl Default for CommandHistory {
    fn default() -> (r: Self)
        ensures
            r@.undo == Seq::<CommandView>::empty(),
            r@.redo == Seq::<CommandView>::empty(),
    {
        let r = CommandHistory { undo: Vec::new(), redo: Vec::new() };
        assert(r@.undo =~= Seq::<CommandView>::empty());
        assert(r@.redo =~= Seq::<CommandView>::empty());
        r
    }
}

impl CommandHistory {
    /// Applies `command` and records it as the most recent undoable command.
    /// Whatever could be redone is forgotten.
    pub fn execute(&mut self, command: Command, document: &mut Document, session: &mut Session)
        requires
            command_fits(command@, old(document)@),
        ensures
            (final(document)@, final(session)@) == applied(command@, old(document)@, old(session)@),
            final(self)@.undo == old(self)@.undo.push(command@),
            final(self)@.redo == Seq::<CommandView>::empty(),
    {
        apply(&command, document, session);
        let ghost undo = self.undo@;
        self.undo.push(command);
        self.redo.clear();
        proof {
            assert(command_views(self.undo@) =~= command_views(undo).push(command@));
            assert(command_views(self.redo@) =~= Seq::<CommandView>::empty());
        }
    }

    /// Reverts the most recent undoable command and makes it redoable. Returns
    /// `false`, changing nothing, when there is none.
    pub fn undo(&mut self, document: &mut Document, session: &mut Session) -> (r: bool)
        requires
            old(self)@.undo.len() > 0 ==> command_fits(old(self)@.undo.last(), old(document)@),
        ensures
            r == (old(self)@.undo.len() > 0),
            r ==> {
                &&& (final(document)@, final(session)@) == reverted(
                    old(self)@.undo.last(),
                    old(document)@,
                    old(session)@,
                )
                &&& final(self)@.undo == old(self)@.undo.drop_last()
                &&& final(self)@.redo == old(self)@.redo.push(old(self)@.undo.last())
            },
            !r ==> {
                &&& final(self)@ == old(self)@
                &&& final(document)@ == old(document)@
                &&& final(session)@ == old(session)@
            },
    {
        let ghost undo = self.undo@;
        let ghost redo = self.redo@;
        match self.undo.pop() {
            None => false,
            Some(command) => {
                proof {
                    assert(command_views(self.undo@) =~= command_views(undo).drop_last());
                }
                revert(&command, document, session);
                self.redo.push(command);
                proof {
                    assert(command_views(self.redo@) =~= command_views(redo).push(command@));
                }
                true
            },
        }
    }

    /// Applies again the most recently undone command and makes it undoable.
    /// Returns `false`, changing nothing, when there is none.
    pub fn redo(&mut self, document: &mut Document, session: &mut Session) -> (r: bool)
        requires
            old(self)@.redo.len() > 0 ==> command_fits(old(self)@.redo.last(), old(document)@),
        ensures
            r == (old(self)@.redo.len() > 0),
            r ==> {
                &&& (final(document)@, final(session)@) == applied(
                    old(self)@.redo.last(),
                    old(document)@,
                    old(session)@,
                )
                &&& final(self)@.redo == old(self)@.redo.drop_last()
                &&& final(self)@.undo == old(self)@.undo.push(old(self)@.redo.last())
            },
            !r ==> {
                &&& final(self)@ == old(self)@
                &&& final(document)@ == old(document)@
                &&& final(session)@ == old(session)@
            },
    {
        let ghost undo = self.undo@;
        let ghost redo = self.redo@;
        match self.redo.pop() {
            None => false,
            Some(command) => {
                proof {
                    assert(command_views(self.redo@) =~= command_views(redo).drop_last());
                }
                apply(&command, document, session);
                self.undo.push(command);
                proof {
                    assert(command_views(self.undo@) =~= command_views(undo).push(command@));
                }
                true
            },
        }
    }

    /// The number of commands that can be undone.
    pub fn undo_len(&self) -> (r: usize)
        ensures
            r == self@.undo.len(),
    {
        self.undo.len()
    }
}


proof fn lemma_has_first_camera(cameras: Seq<CameraState>, pane: PaneId, k: int)
    requires
        0 <= k < cameras.len(),
        cameras[k].pane == pane,
    ensures
        exists|i: int| is_first_camera(cameras, pane, i),
    decreases k,
{
    if exists|j: int| 0 <= j < k && cameras[j].pane == pane {
        let j = choose|j: int| 0 <= j < k && cameras[j].pane == pane;
        lemma_has_first_camera(cameras, pane, j);
    } else {
        assert(is_first_camera(cameras, pane, k));
    }
}

proof fn lemma_camera_index_is_first(cameras: Seq<CameraState>, pane: PaneId)
    requires
        camera_index(cameras, pane) is Some,
    ensures
        is_first_camera(cameras, pane, camera_index(cameras, pane)->0),
{
    let k = choose|k: int| 0 <= k < cameras.len() && cameras[k].pane == pane;
    lemma_has_first_camera(cameras, pane, k);
}

/// Where a pane's first camera state is depends on the panes alone.
proof fn lemma_camera_index_same_panes(a: Seq<CameraState>, b: Seq<CameraState>, pane: PaneId)
    requires
        a.len() == b.len(),
        forall|j: int| 0 <= j < a.len() ==> a[j].pane == b[j].pane,
    ensures
        camera_index(a, pane) == camera_index(b, pane),
{
    if camera_index(a, pane) is Some {
        lemma_camera_index_is_first(a, pane);
        let i = camera_index(a, pane)->0;
        assert(is_first_camera(b, pane, i));
        lemma_camera_index(b, pane, i);
    } else {
        assert forall|j: int| 0 <= j < b.len() implies b[j].pane != pane by {
            assert(a[j].pane == b[j].pane);
        }
    }
}

proof fn lemma_has_first_annotation(annotations: Seq<PolygonView>, id: AnnotationId, k: int)
    requires
        0 <= k < annotations.len(),
        annotations[k].id == id,
    ensures
        exists|i: int| is_first_annotation(annotations, id, i),
    decreases k,
{
    if exists|j: int| 0 <= j < k && annotations[j].id == id {
        let j = choose|j: int| 0 <= j < k && annotations[j].id == id;
        lemma_has_first_annotation(annotations, id, j);
    } else {
        assert(is_first_annotation(annotations, id, k));
    }
}

proof fn lemma_annotation_index_is_first(annotations: Seq<PolygonView>, id: AnnotationId)
    requires
        annotation_index(annotations, id) is Some,
    ensures
        is_first_annotation(annotations, id, annotation_index(annotations, id)->0),
{
    let k = choose|k: int| 0 <= k < annotations.len() && annotations[k].id == id;
    lemma_has_first_annotation(annotations, id, k);
}

/// Where the first polygon with an ID is depends on the IDs alone.
proof fn lemma_annotation_index_same_ids(a: Seq<PolygonView>, b: Seq<PolygonView>, id: AnnotationId)
    requires
        a.len() == b.len(),
        forall|j: int| 0 <= j < a.len() ==> a[j].id == b[j].id,
    ensures
        annotation_index(a, id) == annotation_index(b, id),
{
    if annotation_index(a, id) is Some {
        lemma_annotation_index_is_first(a, id);
        let i = annotation_index(a, id)->0;
        assert(is_first_annotation(b, id, i));
        lemma_annotation_index(b, id, i);
    } else {
        assert forall|j: int| 0 <= j < b.len() implies b[j].id != id by {
            assert(a[j].id == b[j].id);
        }
    }
}

proof fn lemma_without_absent(annotations: Seq<PolygonView>, id: AnnotationId)
    requires
        forall|j: int| 0 <= j < annotations.len() ==> annotations[j].id != id,
    ensures
        without_annotation(annotations, id) == annotations,
    decreases annotations.len(),
{
    if annotations.len() > 0 {
        lemma_without_absent(annotations.drop_last(), id);
        assert(annotations.drop_last().push(annotations.last()) =~= annotations);
    }
}

proof fn lemma_without_single(annotations: Seq<PolygonView>, id: AnnotationId, k: int)
    requires
        0 <= k < annotations.len(),
        annotations[k].id == id,
        forall|j: int| 0 <= j < annotations.len() && j != k ==> annotations[j].id != id,
    ensures
        without_annotation(annotations, id) == annotations.remove(k),
    decreases annotations.len(),
{
    let n = annotations.len() as int;
    if k == n - 1 {
        lemma_without_absent(annotations.drop_last(), id);
        assert(annotations.drop_last() =~= annotations.remove(k));
    } else {
        lemma_without_single(annotations.drop_last(), id, k);
        assert(annotations.drop_last().remove(k).push(annotations.last()) =~= annotations.remove(k));
    }
}

/// The IDs of a document's polygons are below its next annotation ID and
/// distinct.
pub open spec fn document_valid(document: DocumentView) -> bool {
    &&& forall|j: int|
        0 <= j < document.annotations.len() ==> (#[trigger] document.annotations[j]).id.0
            < document.next_annotation_id
    &&& forall|j: int, k: int|
        0 <= j < k < document.annotations.len() ==> (#[trigger] document.annotations[j]).id
            != (#[trigger] document.annotations[k]).id
}

/// Cameras that move together show the same view: states of one pane, and
/// states in one link group, have the same camera.
pub open spec fn cameras_agree(cameras: Seq<CameraState>) -> bool {
    forall|j: int, k: int|
        0 <= j < cameras.len() && 0 <= k < cameras.len() && (cameras[j].pane == cameras[k].pane
            || (cameras[j].link is Some && cameras[j].link == cameras[k].link)) ==> (#[trigger] cameras[j]).camera
            == (#[trigger] cameras[k]).camera
}

/// `command` records what the document and the session hold where it acts,
/// so that reverting it after applying it restores them.
pub open spec fn undoable(command: CommandView, document: DocumentView, session: SessionView) -> bool {
    match command {
        CommandView::SetCamera { pane, before, .. } => forall|j: int|
            0 <= j < session.cameras.len() && moves_with(
                #[trigger] session.cameras[j],
                pane,
                link_of(session.cameras, pane),
            ) ==> session.cameras[j].camera == before,
        CommandView::SetCameraLink { pane, before, .. } => link_of(session.cameras, pane) == before
            || camera_index(session.cameras, pane) is None,
        CommandView::AddPolygon { polygon } => {
            &&& polygon.id.0 < document.next_annotation_id
            &&& forall|j: int|
                0 <= j < document.annotations.len() ==> (#[trigger] document.annotations[j]).id
                    != polygon.id
        },
        CommandView::MoveVertex { annotation, vertex, before, .. } => match annotation_index(
            document.annotations,
            annotation,
        ) {
            Some(i) => vertex < document.annotations[i].vertices.len()
                && document.annotations[i].vertices[vertex as int] == before,
            None => true,
        },
        CommandView::DeletePolygon { polygon, index } => {
            &&& index < document.annotations.len()
            &&& document.annotations[index as int] == polygon
            &&& forall|j: int|
                0 <= j < document.annotations.len() && j != index ==> (
                #[trigger] document.annotations[j]).id != polygon.id
        },
        CommandView::SelectResult { before, .. } => session.selected_result == before,
    }
}

/// Reverting a command right after applying it restores the document, and
/// the session but for which annotation is selected. Applying it keeps the
/// document valid and leaves the command fit to be reverted.
pub proof fn lemma_revert_undoes_apply(command: CommandView, document: DocumentView, session: SessionView)
    requires
        command_fits(command, document),
        undoable(command, document, session),
    ensures
        command_fits(command, applied(command, document, session).0),
        reverted(command, applied(command, document, session).0, applied(command, document, session).1).0
            == document,
        reverted(command, applied(command, document, session).0, applied(command, document, session).1).1
            == (SessionView {
            selected_annotation: reverted(
                command,
                applied(command, document, session).0,
                applied(command, document, session).1,
            ).1.selected_annotation,
            ..session
        }),
        document_valid(document) ==> document_valid(applied(command, document, session).0),
{
    let (d1, s1) = applied(command, document, session);
    let (d2, s2) = reverted(command, d1, s1);
    match command {
        CommandView::SetCamera { pane, before, after } => {
            let cams = session.cameras;
            let moved = propagated(cams, pane, after);
            lemma_camera_index_same_panes(cams, moved, pane);
            if camera_index(cams, pane) is Some {
                lemma_camera_index_is_first(cams, pane);
                let i = camera_index(cams, pane)->0;
                assert(moved[i].link == cams[i].link);
            }
            assert(link_of(moved, pane) == link_of(cams, pane));
            assert(propagated(moved, pane, before) =~= cams);
            assert(s2 =~= session);
        },
        CommandView::SetCameraLink { pane, before, after } => {
            let cams = session.cameras;
            let moved = relinked(cams, pane, after);
            if camera_index(cams, pane) is Some {
                lemma_camera_index_is_first(cams, pane);
            }
            assert forall|j: int| 0 <= j < cams.len() implies #[trigger] cams[j].pane == moved[j].pane by {}
            lemma_camera_index_same_panes(cams, moved, pane);
            assert(relinked(moved, pane, before) =~= cams);
            assert(s2 =~= SessionView { selected_annotation: s2.selected_annotation, ..session });
        },
        CommandView::AddPolygon { polygon } => {
            let annotations = document.annotations;
            lemma_without_absent(annotations, polygon.id);
            assert(annotations.push(polygon).drop_last() =~= annotations);
            assert(d2 =~= document);
            assert(s2 =~= SessionView { selected_annotation: s2.selected_annotation, ..session });
        },
        CommandView::MoveVertex { annotation, vertex, before, after } => {
            let annotations = document.annotations;
            let moved = with_vertex(annotations, annotation, vertex, after);
            if annotation_index(annotations, annotation) is Some {
                lemma_annotation_index_is_first(annotations, annotation);
            }
            assert forall|j: int| 0 <= j < annotations.len() implies #[trigger] annotations[j].id == moved[j].id by {}
            lemma_annotation_index_same_ids(annotations, moved, annotation);
            if annotation_index(annotations, annotation) is Some {
                let i = annotation_index(annotations, annotation)->0;
                assert(moved[i].vertices.update(vertex as int, before) =~= annotations[i].vertices);
                assert(with_vertex(moved, annotation, vertex, before) =~= annotations);
                assert(forall|j: int| 0 <= j < moved.len() ==> #[trigger] moved[j].id == annotations[j].id);
            }
            assert(d2 =~= document);
        },
        CommandView::DeletePolygon { polygon, index } => {
            let annotations = document.annotations;
            lemma_without_single(annotations, polygon.id, index as int);
            assert(annotations.remove(index as int).insert(index as int, polygon) =~= annotations);
            assert(d2 =~= document);
            assert(s2 =~= SessionView { selected_annotation: s2.selected_annotation, ..session });
            if document_valid(document) {
                let rest = annotations.remove(index as int);
                assert forall|j: int, k: int| 0 <= j < k < rest.len() implies (#[trigger] rest[j]).id
                    != (#[trigger] rest[k]).id by {
                    let jj = if j < index { j } else { j + 1 };
                    let kk = if k < index { k } else { k + 1 };
                    assert(rest[j] == annotations[jj]);
                    assert(rest[k] == annotations[kk]);
                }
                assert forall|j: int| 0 <= j < rest.len() implies (#[trigger] rest[j]).id.0
                    < document.next_annotation_id by {
                    let jj = if j < index { j } else { j + 1 };
                    assert(rest[j] == annotations[jj]);
                }
            }
        },
        CommandView::SelectResult { before, after } => {
            assert(s2 =~= session);
        },
    }
}


/// A command that validation accepts, on a valid document whose linked
/// cameras agree, can be applied and then reverted: it fits the document that
/// validation leaves, records what that document and the session hold, and
/// the document stays valid.
pub proof fn lemma_validated_command_is_undoable(intent: IntentView, document: DocumentView, session: SessionView)
    requires
        document_valid(document),
        document.annotations.len() <= usize::MAX,
        cameras_agree(session.cameras),
        validation(intent, document, session) is Ok,
        adds_polygon(intent) ==> document.next_annotation_id < u64::MAX,
    ensures
        command_fits(validation(intent, document, session)->Ok_0, after_validation(intent, document)),
        undoable(validation(intent, document, session)->Ok_0, after_validation(intent, document), session),
        document_valid(after_validation(intent, document)),
{
    let cams = session.cameras;
    let annotations = document.annotations;
    match intent {
        IntentView::SetCamera { pane, .. } | IntentView::RecenterOnResult { pane, .. } => {
            lemma_camera_index_is_first(cams, pane);
            let i = camera_index(cams, pane)->0;
            assert forall|j: int|
                0 <= j < cams.len() && moves_with(
                    #[trigger] cams[j],
                    pane,
                    link_of(cams, pane),
                ) implies cams[j].camera == cams[i].camera by {
                assert(cams[i] == cams[i]);
            }
        },
        IntentView::SetCameraLink { pane, .. } => {
            lemma_camera_index_is_first(cams, pane);
        },
        IntentView::CommitPolygon { .. } => {},
        IntentView::MoveVertex { annotation, .. } => {
            lemma_annotation_index_is_first(annotations, annotation);
        },
        IntentView::DeleteAnnotation { annotation } => {
            lemma_annotation_index_is_first(annotations, annotation);
            let i = annotation_index(annotations, annotation)->0;
            assert forall|j: int| 0 <= j < annotations.len() && j != i implies (
            #[trigger] annotations[j]).id != annotations[i].id by {
                if j < i {
                    assert(annotations[j].id != annotations[i].id);
                } else {
                    assert(annotations[i].id != annotations[j].id);
                }
            }
        },
        IntentView::SelectResult { .. } => {},
    }
}


/// Redoing a command right after undoing it gives back the document that
/// applying it first gave.
pub proof fn lemma_redo_after_undo(command: CommandView, document: DocumentView, session: SessionView)
    requires
        command_fits(command, document),
        undoable(command, document, session),
    ensures
        applied(
            command,
            reverted(command, applied(command, document, session).0, applied(command, document, session).1).0,
            reverted(command, applied(command, document, session).0, applied(command, document, session).1).1,
        ).0 == applied(command, document, session).0,
{
    lemma_revert_undoes_apply(command, document, session);
}

} // verus!
