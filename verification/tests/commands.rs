use polyorama::commands::{
    commit_gesture, validate_intent, Camera, CameraState, Command, CommandHistory, Document,
    GesturePreview, ImageIntent, ImagePoint, Session, WorldPoint,
};
use polyorama::ids::{AnnotationId, LayerId, LinkGroupId, PaneId, ResultId};

fn point(x: f64, y: f64) -> WorldPoint {
    WorldPoint { x_bits: x.to_bits(), y_bits: y.to_bits() }
}

fn triangle() -> Vec<WorldPoint> {
    vec![point(0.0, 0.0), point(1.0, 0.0), point(0.0, 1.0)]
}

struct RowRange {
    start: usize,
}

struct VirtualRows {
    visible: RowRange,
    materialised: RowRange,
}

/// The rows a virtual list shows at a scroll offset, and those it keeps
/// materialised around them.
fn virtual_rows(offset: f64, _height: f64, row_height: f64, rows: usize, overscan: usize) -> VirtualRows {
    let first = ((offset / row_height).floor() as usize).min(rows);
    VirtualRows {
        visible: RowRange { start: first },
        materialised: RowRange { start: first.saturating_sub(overscan) },
    }
}

#[test]
fn command_application_undo_and_redo() {
    let mut document = Document::default();
    let mut session = Session::default();
    let command = validate_intent(
        ImageIntent::CommitPolygon { layer: LayerId(1), vertices: triangle() },
        &mut document,
        &session,
    )
    .unwrap();
    let mut history = CommandHistory::default();
    history.execute(command, &mut document, &mut session);
    assert_eq!(document.annotations.len(), 1);
    assert!(history.undo(&mut document, &mut session));
    assert!(document.annotations.is_empty());
    assert!(history.redo(&mut document, &mut session));
    assert_eq!(document.annotations.len(), 1);
}

#[test]
fn complete_gesture_is_one_command() {
    let mut document = Document::default();
    let mut session = Session {
        gesture: Some(GesturePreview::Polygon { layer: LayerId(1), vertices: triangle() }),
        ..Session::default()
    };
    let command = commit_gesture(&mut document, &mut session).unwrap();
    let mut history = CommandHistory::default();
    history.execute(command, &mut document, &mut session);
    assert_eq!(history.undo_len(), 1);
}

#[test]
fn invalid_polygon_intent_does_not_become_a_command() {
    let mut document = Document::default();
    let session = Session::default();
    let result = validate_intent(
        ImageIntent::CommitPolygon {
            layer: LayerId(1),
            vertices: vec![point(0.0, 0.0), point(1.0, 0.0)],
        },
        &mut document,
        &session,
    );
    assert_eq!(result, Err("a polygon needs at least three vertices".into()));
    assert_eq!(document, Document::default());
}

#[test]
fn result_selection_is_stable_across_virtual_ranges_and_undoable() {
    let mut document = Document::default();
    let mut session = Session::default();
    let mut history = CommandHistory::default();
    let command = validate_intent(
        ImageIntent::SelectResult { result: ResultId(734_219) },
        &mut document,
        &session,
    )
    .unwrap();

    history.execute(command, &mut document, &mut session);
    assert_eq!(session.selected_result, Some(ResultId(734_219)));
    let range = virtual_rows(700_000.0, 480.0, 20.0, 1_000_000, 8);
    assert_eq!(range.visible.start, 35_000);
    assert_eq!(range.materialised.start, 34_992);
    assert_eq!(session.selected_result, Some(ResultId(734_219)));
    assert!(history.undo(&mut document, &mut session));
    assert_eq!(session.selected_result, None);
    assert!(history.redo(&mut document, &mut session));
    assert_eq!(session.selected_result, Some(ResultId(734_219)));
}

#[test]
fn accepted_polygon_takes_the_next_annotation_id() {
    let mut document = Document::default();
    let session = Session::default();
    let command = validate_intent(
        ImageIntent::CommitPolygon { layer: LayerId(2), vertices: triangle() },
        &mut document,
        &session,
    )
    .unwrap();
    match command {
        Command::AddPolygon { polygon } => {
            assert_eq!(polygon.id, AnnotationId(1));
            assert_eq!(polygon.layer, LayerId(2));
            assert_eq!(polygon.vertices, triangle());
        }
        other => panic!("unexpected command {other:?}"),
    }
    assert_eq!(document.next_annotation_id, 2);
}

#[test]
fn unknown_targets_are_refused_with_their_reason() {
    let mut document = Document::default();
    let session = Session::default();
    let camera = Camera::default();
    assert_eq!(
        validate_intent(ImageIntent::SetCamera { pane: PaneId(1), camera }, &mut document, &session),
        Err("unknown camera pane".into())
    );
    assert_eq!(
        validate_intent(
            ImageIntent::DeleteAnnotation { annotation: AnnotationId(5) },
            &mut document,
            &session
        ),
        Err("unknown annotation".into())
    );
    assert_eq!(
        validate_intent(
            ImageIntent::MoveVertex { annotation: AnnotationId(5), vertex: 0, to: point(1.0, 1.0) },
            &mut document,
            &session
        ),
        Err("unknown annotation".into())
    );
    let mut session = Session::default();
    assert_eq!(commit_gesture(&mut document, &mut session), Err("no active gesture".into()));
}

#[test]
fn moving_a_missing_vertex_is_refused() {
    let mut document = Document::default();
    let mut session = Session::default();
    let mut history = CommandHistory::default();
    let command = validate_intent(
        ImageIntent::CommitPolygon { layer: LayerId(1), vertices: triangle() },
        &mut document,
        &session,
    )
    .unwrap();
    history.execute(command, &mut document, &mut session);
    assert_eq!(
        validate_intent(
            ImageIntent::MoveVertex { annotation: AnnotationId(1), vertex: 3, to: point(2.0, 2.0) },
            &mut document,
            &session
        ),
        Err("unknown vertex".into())
    );
}

#[test]
fn undo_restores_a_moved_vertex_and_a_deleted_polygon() {
    let mut document = Document::default();
    let mut session = Session::default();
    let mut history = CommandHistory::default();
    for layer in [1, 2] {
        let command = validate_intent(
            ImageIntent::CommitPolygon { layer: LayerId(layer), vertices: triangle() },
            &mut document,
            &session,
        )
        .unwrap();
        history.execute(command, &mut document, &mut session);
    }
    let original = document.annotations.clone();
    let command = validate_intent(
        ImageIntent::MoveVertex { annotation: AnnotationId(1), vertex: 2, to: point(5.0, 5.0) },
        &mut document,
        &session,
    )
    .unwrap();
    history.execute(command, &mut document, &mut session);
    assert_eq!(document.annotations[0].vertices[2], point(5.0, 5.0));
    let command = validate_intent(
        ImageIntent::DeleteAnnotation { annotation: AnnotationId(1) },
        &mut document,
        &session,
    )
    .unwrap();
    history.execute(command, &mut document, &mut session);
    assert_eq!(document.annotations.len(), 1);
    assert_eq!(document.annotations[0].id, AnnotationId(2));
    assert!(history.undo(&mut document, &mut session));
    assert_eq!(document.annotations[0].id, AnnotationId(1));
    assert!(history.undo(&mut document, &mut session));
    assert_eq!(document.annotations.clone(), original);
}

#[test]
fn linked_cameras_move_together_and_back() {
    let mut document = Document::default();
    let start = Camera::default();
    let moved = Camera {
        centre: ImagePoint { x_bits: 10.0f64.to_bits(), y_bits: 20.0f64.to_bits() },
        pixels_per_screen_point_bits: 2.0f64.to_bits(),
    };
    let mut session = Session {
        cameras: vec![
            CameraState { pane: PaneId(1), camera: start, link: Some(LinkGroupId(7)) },
            CameraState { pane: PaneId(2), camera: start, link: Some(LinkGroupId(7)) },
            CameraState { pane: PaneId(3), camera: start, link: None },
        ],
        ..Session::default()
    };
    let mut history = CommandHistory::default();
    let command = validate_intent(
        ImageIntent::SetCamera { pane: PaneId(1), camera: moved },
        &mut document,
        &session,
    )
    .unwrap();
    history.execute(command, &mut document, &mut session);
    assert_eq!(session.cameras[0].camera, moved);
    assert_eq!(session.cameras[1].camera, moved);
    assert_eq!(session.cameras[2].camera, start);
    assert!(history.undo(&mut document, &mut session));
    assert!(session.cameras.iter().all(|state| state.camera == start));
}

#[test]
fn recentring_keeps_the_zoom() {
    let mut document = Document::default();
    let zoom = 3.0f64.to_bits();
    let session = Session {
        cameras: vec![CameraState {
            pane: PaneId(4),
            camera: Camera { centre: ImagePoint::default(), pixels_per_screen_point_bits: zoom },
            link: None,
        }],
        ..Session::default()
    };
    let position = ImagePoint { x_bits: 7.0f64.to_bits(), y_bits: 8.0f64.to_bits() };
    let command = validate_intent(
        ImageIntent::RecenterOnResult { result: ResultId(9), pane: PaneId(4), position },
        &mut document,
        &session,
    )
    .unwrap();
    match command {
        Command::SetCamera { pane, before, after } => {
            assert_eq!(pane, PaneId(4));
            assert_eq!(before.pixels_per_screen_point_bits, zoom);
            assert_eq!(after, Camera { centre: position, pixels_per_screen_point_bits: zoom });
        }
        other => panic!("unexpected command {other:?}"),
    }
}
