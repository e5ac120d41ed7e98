use jackdaw::brush::{
    BrushDrag, DragFrame, DragOutcome, face_material, preview_marks, preview_target, FaceMaterial, deselect_removed, draw_activate, draw_cancelled, draw_click, edge_drag_vertices, endpoints_of,
    fragment_kept, handle_edit_mode_keys, keep_unlisted, pick_edge, pick_index, plan_brush_delete,
    triangulate_face, unique_edges, BrushDeletion, BrushEditMode, BrushSelection, ClipPlaneFrom,
    ClipState, DragAction, VertexDragConstraint, DragKeys, DragSession, DrawClick, DrawMode, DrawPhase,
    DrawStep, EditMode, EditModeKeys, SetBrush,
};
use jackdaw::history::UndoHistory;

fn keys() -> EditModeKeys {
    EditModeKeys { backquote: false, digit1: false, digit2: false, digit3: false, digit4: false }
}

#[test]
fn backquote_enters_face_editing_on_a_brush_and_leaves_it() {
    let mut mode = EditMode::Object;
    let mut sel = BrushSelection::new();
    let back = EditModeKeys { backquote: true, ..keys() };
    handle_edit_mode_keys(&mut mode, &mut sel, back, false, Some(5), true);
    assert_eq!(mode, EditMode::BrushEdit(BrushEditMode::Face));
    assert_eq!(sel.entity, Some(5));
    sel.faces.push(2);
    handle_edit_mode_keys(&mut mode, &mut sel, back, false, Some(5), true);
    assert_eq!(mode, EditMode::Object);
    assert_eq!(sel.entity, None);
    assert!(sel.faces.is_empty());
}

#[test]
fn backquote_on_something_else_stays_in_object_mode() {
    let mut mode = EditMode::Object;
    let mut sel = BrushSelection::new();
    let back = EditModeKeys { backquote: true, ..keys() };
    handle_edit_mode_keys(&mut mode, &mut sel, back, false, Some(5), false);
    assert_eq!(mode, EditMode::Object);
    handle_edit_mode_keys(&mut mode, &mut sel, back, false, None, true);
    assert_eq!(mode, EditMode::Object);
}

#[test]
fn digits_pick_sub_modes_and_clear_the_picks() {
    let mut mode = EditMode::BrushEdit(BrushEditMode::Face);
    let mut sel = BrushSelection::new();
    sel.entity = Some(5);
    sel.faces = vec![1, 2];
    handle_edit_mode_keys(&mut mode, &mut sel, EditModeKeys { digit1: true, ..keys() }, false, Some(5), true);
    assert_eq!(mode, EditMode::BrushEdit(BrushEditMode::Vertex));
    assert!(sel.faces.is_empty());
    handle_edit_mode_keys(&mut mode, &mut sel, EditModeKeys { digit4: true, ..keys() }, true, Some(5), true);
    assert_eq!(mode, EditMode::BrushEdit(BrushEditMode::Vertex));
    handle_edit_mode_keys(&mut mode, &mut sel, EditModeKeys { digit2: true, digit3: true, ..keys() }, false, Some(5), true);
    assert_eq!(mode, EditMode::BrushEdit(BrushEditMode::Edge));
}

#[test]
fn losing_the_brush_from_the_selection_ends_brush_editing() {
    let mut mode = EditMode::BrushEdit(BrushEditMode::Edge);
    let mut sel = BrushSelection::new();
    sel.entity = Some(5);
    sel.edges = vec![(0, 1)];
    handle_edit_mode_keys(&mut mode, &mut sel, keys(), false, Some(6), true);
    assert_eq!(mode, EditMode::Object);
    assert_eq!(sel.entity, None);
    assert!(sel.edges.is_empty());
}

#[test]
fn clicks_pick_and_ctrl_clicks_toggle() {
    let mut list = vec![1, 2, 3];
    pick_index(&mut list, Some(7), false);
    assert_eq!(list, vec![7]);
    pick_index(&mut list, Some(4), true);
    assert_eq!(list, vec![7, 4]);
    pick_index(&mut list, Some(7), true);
    assert_eq!(list, vec![4]);
    pick_index(&mut list, None, true);
    assert_eq!(list, vec![4]);
    pick_index(&mut list, None, false);
    assert!(list.is_empty());
    let mut edges = vec![(0, 1)];
    pick_edge(&mut edges, Some((1, 2)), true);
    assert_eq!(edges, vec![(0, 1), (1, 2)]);
    pick_edge(&mut edges, Some((0, 1)), true);
    assert_eq!(edges, vec![(1, 2)]);
}

#[test]
fn shared_edges_are_listed_once() {
    let faces = vec![vec![0, 1, 2], vec![2, 1, 3]];
    assert_eq!(unique_edges(&faces), vec![(0, 1), (1, 2), (0, 2), (1, 3), (2, 3)]);
}

#[test]
fn faces_fan_out_from_their_first_vertex() {
    assert_eq!(triangulate_face(&vec![4, 5, 6, 7]), vec![[4, 5, 6], [4, 6, 7]]);
    assert!(triangulate_face(&vec![4, 5]).is_empty());
}

#[test]
fn deleting_keeps_what_was_not_picked() {
    assert_eq!(keep_unlisted(6, &vec![1, 4]), vec![0, 2, 3, 5]);
    assert_eq!(endpoints_of(&vec![(0, 1), (1, 2)]), vec![0, 1, 1, 2]);
    let mut sel = BrushSelection::new();
    sel.vertices = vec![0];
    assert_eq!(
        plan_brush_delete(BrushEditMode::Vertex, &sel, 8, 6, false),
        BrushDeletion::RebuildFromVertices(vec![1, 2, 3, 4, 5, 6, 7])
    );
    assert_eq!(plan_brush_delete(BrushEditMode::Vertex, &sel, 4, 6, false), BrushDeletion::Nothing);
    assert_eq!(plan_brush_delete(BrushEditMode::Vertex, &sel, 8, 6, true), BrushDeletion::Nothing);
    sel.edges = vec![(0, 1), (1, 2)];
    assert_eq!(
        plan_brush_delete(BrushEditMode::Edge, &sel, 8, 6, false),
        BrushDeletion::RebuildFromVertices(vec![3, 4, 5, 6, 7])
    );
    sel.faces = vec![0, 5];
    assert_eq!(plan_brush_delete(BrushEditMode::Face, &sel, 8, 6, false), BrushDeletion::KeepFaces(vec![1, 2, 3, 4]));
    sel.faces = vec![0, 1, 5];
    assert_eq!(plan_brush_delete(BrushEditMode::Face, &sel, 8, 6, false), BrushDeletion::Nothing);
    assert_eq!(plan_brush_delete(BrushEditMode::Clip, &sel, 8, 6, false), BrushDeletion::Nothing);
}

#[test]
fn drawing_goes_corner_footprint_depth() {
    let start = draw_activate(None, false, true, false).expect("B starts drawing");
    assert_eq!(start, DrawStep { phase: DrawPhase::PlacingFirstCorner, mode: DrawMode::Add });
    assert_eq!(draw_activate(None, false, true, true), None);
    let cut = draw_activate(Some(start), true, false, false).unwrap();
    assert_eq!(cut.mode, DrawMode::Cut);
    assert_eq!(draw_click(cut, false, true, true), DrawClick::Stay);
    assert_eq!(draw_click(cut, true, false, false), DrawClick::Advance(DrawPhase::DrawingFootprint));
    let footprint = DrawStep { phase: DrawPhase::DrawingFootprint, mode: DrawMode::Cut };
    assert_eq!(draw_activate(Some(footprint), true, false, false), Some(footprint));
    assert_eq!(draw_click(footprint, true, true, false), DrawClick::Advance(DrawPhase::ExtrudingDepth));
    let depth = DrawStep { phase: DrawPhase::ExtrudingDepth, mode: DrawMode::Cut };
    assert_eq!(draw_click(depth, true, true, false), DrawClick::Stay);
    assert_eq!(draw_click(depth, true, true, true), DrawClick::Finish(DrawMode::Cut));
    assert!(draw_cancelled(true, true, false));
    assert!(!draw_cancelled(false, true, true));
}

fn no_keys() -> DragKeys {
    DragKeys { grab: false, axis_x: false, axis_y: false, axis_z: false, cancel: false, confirm: false }
}

#[test]
fn a_drag_starts_follows_and_is_confirmed() {
    let mut drag = DragSession::new();
    let grab = DragKeys { grab: true, ..no_keys() };
    assert_eq!(drag.step(true, true, false, true, true, grab), DragAction::Wait);
    assert_eq!(drag.step(true, true, true, false, true, grab), DragAction::Wait);
    assert_eq!(drag.step(true, true, true, true, true, grab), DragAction::Start);
    assert!(drag.active);
    assert_eq!(drag.step(true, true, true, true, true, DragKeys { axis_x: true, ..no_keys() }), DragAction::Continue);
    assert_eq!(drag.constraint, VertexDragConstraint::AxisX);
    assert_eq!(drag.step(true, true, true, true, true, DragKeys { axis_x: true, ..no_keys() }), DragAction::Continue);
    assert_eq!(drag.constraint, VertexDragConstraint::Free);
    assert_eq!(drag.step(true, true, true, true, true, DragKeys { axis_y: true, ..no_keys() }), DragAction::Continue);
    assert_eq!(drag.step(true, true, true, true, true, DragKeys { confirm: true, ..no_keys() }), DragAction::Confirm);
    assert!(!drag.active);
    assert_eq!(drag.constraint, VertexDragConstraint::Free);
}

#[test]
fn a_cancelled_or_abandoned_drag_stops() {
    let mut drag = DragSession::new();
    let grab = DragKeys { grab: true, ..no_keys() };
    assert_eq!(drag.step(true, true, true, true, false, grab), DragAction::Start);
    assert_eq!(drag.step(true, false, true, true, false, DragKeys { cancel: true, ..no_keys() }), DragAction::Wait);
    assert!(drag.active);
    assert_eq!(drag.step(true, true, true, true, false, DragKeys { cancel: true, confirm: true, ..no_keys() }), DragAction::Cancel);
    assert!(!drag.active);
    assert_eq!(drag.step(true, true, true, true, false, grab), DragAction::Start);
    assert_eq!(drag.step(false, true, true, true, false, no_keys()), DragAction::Wait);
    assert!(!drag.active);
}

#[test]
fn an_edge_drag_moves_each_end_once() {
    assert_eq!(edge_drag_vertices(&vec![(0, 1), (1, 2), (2, 0)]), vec![0, 1, 2]);
    assert_eq!(edge_drag_vertices(&vec![(3, 1)]), vec![3, 1]);
}

#[test]
fn clip_points_stop_at_three_and_go_with_the_plane() {
    let mut clip: ClipState<(i32, i32), &str> = ClipState::new();
    assert_eq!(clip.plane_from(), ClipPlaneFrom::Nothing);
    assert!(clip.takes_point(true));
    clip.add(Some((0, 0)));
    clip.add(None);
    clip.add(Some((1, 0)));
    assert_eq!(clip.plane_from(), ClipPlaneFrom::TwoPointsAndView);
    clip.add(Some((0, 1)));
    assert_eq!(clip.plane_from(), ClipPlaneFrom::ThreePoints);
    assert!(!clip.takes_point(true));
    assert_eq!(clip.apply(true), None);
    assert_eq!(clip.points.len(), 3);
    clip.set_preview(Some("plane"));
    assert_eq!(clip.apply(false), None);
    assert_eq!(clip.apply(true), Some("plane"));
    assert!(clip.points.is_empty());
    assert!(clip.preview_plane.is_none());
    clip.add(Some((2, 2)));
    clip.clear();
    assert!(clip.points.is_empty());
}

#[test]
fn a_subtraction_deselects_the_brushes_it_takes() {
    let mut selection = vec![4, 5, 6, 5];
    deselect_removed(&mut selection, &vec![5, 9]);
    assert_eq!(selection, vec![4, 6]);
    assert!(fragment_kept(8, 6));
    assert!(!fragment_kept(3, 6));
    assert!(!fragment_kept(8, 3));
}

#[test]
fn faces_take_their_texture_or_palette_slot() {
    assert_eq!(face_material(true, true, 3, 4, 2, true), FaceMaterial::Textured);
    assert_eq!(face_material(true, false, 3, 4, 2, true), FaceMaterial::Palette { preview: false, slot: 0 });
    assert_eq!(face_material(false, false, 3, 4, 4, true), FaceMaterial::Palette { preview: true, slot: 3 });
    assert_eq!(face_material(false, false, 3, 4, 2, true), FaceMaterial::Palette { preview: true, slot: 0 });
    assert_eq!(face_material(false, false, 3, 4, 2, false), FaceMaterial::Palette { preview: false, slot: 3 });
    assert_eq!(face_material(false, true, 9, 4, 4, false), FaceMaterial::Palette { preview: false, slot: 0 });
}

#[test]
fn the_preview_look_follows_the_drag_or_the_drawing() {
    assert_eq!(preview_target(true, Some(5), Some(8)), Some(5));
    assert_eq!(preview_target(false, Some(5), Some(8)), Some(8));
    assert_eq!(preview_target(false, Some(5), None), None);
    assert_eq!(preview_marks(&vec![3, 5], Some(5)), (vec![3], None));
    assert_eq!(preview_marks(&vec![3], Some(5)), (vec![3], Some(5)));
    assert_eq!(preview_marks(&vec![3, 4], None), (vec![3, 4], None));
}

fn frame(keys: DragKeys) -> DragFrame {
    DragFrame { in_mode: true, ready: true, picked: true, can_start: true, axes: true, keys }
}

#[test]
fn a_cancelled_brush_drag_puts_the_brush_back() {
    let mut drag: BrushDrag<Vec<i32>> = BrushDrag::new();
    let mut brush = vec![1, 2, 3];
    assert_eq!(drag.frame(frame(DragKeys { grab: true, ..no_keys() }), &mut brush), DragOutcome::Started);
    assert_eq!(drag.frame(frame(no_keys()), &mut brush), DragOutcome::Follow);
    brush = vec![9, 9, 9];
    assert_eq!(drag.frame(frame(no_keys()), &mut brush), DragOutcome::Follow);
    brush = vec![7];
    assert_eq!(drag.frame(frame(DragKeys { cancel: true, ..no_keys() }), &mut brush), DragOutcome::Restored);
    assert_eq!(brush, vec![1, 2, 3]);
    assert!(!drag.session.active);
    assert_eq!(drag.frame(frame(no_keys()), &mut brush), DragOutcome::Nothing);
}

#[test]
fn a_confirmed_brush_drag_records_one_entry() {
    let mut drag: BrushDrag<Vec<i32>> = BrushDrag::new();
    let mut brush = vec![1, 2, 3];
    assert_eq!(drag.frame(frame(DragKeys { grab: true, ..no_keys() }), &mut brush), DragOutcome::Started);
    brush = vec![4, 5];
    assert_eq!(drag.frame(frame(DragKeys { axis_z: true, ..no_keys() }), &mut brush), DragOutcome::Follow);
    assert_eq!(
        drag.frame(frame(DragKeys { confirm: true, ..no_keys() }), &mut brush),
        DragOutcome::Record { old: vec![1, 2, 3], new: vec![4, 5] }
    );
    assert_eq!(brush, vec![4, 5]);
    assert_eq!(drag.session.constraint, VertexDragConstraint::Free);
    assert_eq!(drag.frame(frame(DragKeys { confirm: true, ..no_keys() }), &mut brush), DragOutcome::Nothing);
}

fn entry(old: Vec<i32>, new: Vec<i32>) -> SetBrush<Vec<i32>> {
    SetBrush { entity: 8, old, new, label: "Move brush vertex".to_string() }
}

#[test]
fn recording_a_command_clears_what_could_be_redone() {
    let mut history: UndoHistory<u32> = UndoHistory::new();
    assert!(history.undo_stack.is_empty() && history.redo_stack.is_empty());
    history.record(1);
    history.redo_stack.push(5);
    history.record(2);
    assert_eq!(history.undo_stack, vec![1, 2]);
    assert!(history.redo_stack.is_empty());
}

#[test]
fn a_confirmed_drag_goes_on_the_undo_stack_once() {
    let label = "Move brush vertex".to_string();
    let mut history: UndoHistory<SetBrush<Vec<i32>>> = UndoHistory::new();
    history.undo_stack.push(entry(vec![0], vec![1]));
    history.redo_stack.push(entry(vec![2], vec![3]));
    let mut drag: BrushDrag<Vec<i32>> = BrushDrag::new();
    let mut brush = vec![1, 2, 3];
    assert!(!drag.frame_recording(frame(DragKeys { grab: true, ..no_keys() }), 8, &label, &mut brush, &mut history));
    assert!(drag.frame_recording(frame(no_keys()), 8, &label, &mut brush, &mut history));
    brush = vec![4, 5];
    assert!(drag.frame_recording(frame(no_keys()), 8, &label, &mut brush, &mut history));
    assert_eq!(history.undo_stack.len(), 1);
    assert_eq!(history.redo_stack.len(), 1);
    assert!(!drag.frame_recording(frame(DragKeys { confirm: true, ..no_keys() }), 8, &label, &mut brush, &mut history));
    assert_eq!(brush, vec![4, 5]);
    assert_eq!(history.undo_stack.len(), 2);
    let last = &history.undo_stack[1];
    assert_eq!((last.entity, &last.old, &last.new, last.label.as_str()), (8, &vec![1, 2, 3], &vec![4, 5], "Move brush vertex"));
    assert_eq!(history.undo_stack[0].old, vec![0]);
    assert!(history.redo_stack.is_empty());
}

#[test]
fn a_cancelled_drag_leaves_the_history_alone() {
    let label = "Move brush edge".to_string();
    let mut history: UndoHistory<SetBrush<Vec<i32>>> = UndoHistory::new();
    history.redo_stack.push(entry(vec![2], vec![3]));
    let mut drag: BrushDrag<Vec<i32>> = BrushDrag::new();
    let mut brush = vec![1, 2, 3];
    drag.frame_recording(frame(DragKeys { grab: true, ..no_keys() }), 8, &label, &mut brush, &mut history);
    brush = vec![6];
    assert!(!drag.frame_recording(frame(DragKeys { cancel: true, ..no_keys() }), 8, &label, &mut brush, &mut history));
    assert_eq!(brush, vec![1, 2, 3]);
    assert!(history.undo_stack.is_empty());
    assert_eq!(history.redo_stack.len(), 1);
}
