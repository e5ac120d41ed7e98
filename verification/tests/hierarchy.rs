use std::collections::HashMap;

use jackdaw::hierarchy::{
    row_click, RowClick, classify_entity, context_action, default_template_name, has_visible_children, CategoryMarks,
    ChildTemplate, EntityCategory, HierarchyAction, can_drop_on, drop_on_root, drop_on_row, expansion_populates, filter_rows, parent_of,
    rename_changes_name, row_move_on_reparent, selection_for_context_menu,
    template_name_from_input, toggled_visibility, Reparent, RowMove, TreeRow, Visibility,
};

/// 1 holds 2, which holds 3; 4 stands alone.
fn scene() -> HashMap<u64, u64> {
    let mut parents = HashMap::new();
    parents.insert(2, 1);
    parents.insert(3, 2);
    parents
}

#[test]
fn a_row_cannot_be_dropped_on_itself_or_below_itself() {
    let parents = scene();
    assert!(!can_drop_on(&parents, 1, 1));
    assert!(!can_drop_on(&parents, 1, 3));
    assert!(!can_drop_on(&parents, 2, 3));
    assert!(can_drop_on(&parents, 3, 1));
    assert!(can_drop_on(&parents, 4, 3));
    assert_eq!(drop_on_row(&parents, 1, 3), None);
}

#[test]
fn a_drop_remembers_the_parent_it_leaves() {
    let parents = scene();
    assert_eq!(
        drop_on_row(&parents, 3, 4),
        Some(Reparent { entity: 3, old_parent: Some(2), new_parent: Some(4) })
    );
    assert_eq!(
        drop_on_row(&parents, 4, 1),
        Some(Reparent { entity: 4, old_parent: None, new_parent: Some(1) })
    );
    assert_eq!(
        drop_on_root(&parents, 2),
        Some(Reparent { entity: 2, old_parent: Some(1), new_parent: None })
    );
    assert_eq!(drop_on_root(&parents, 1), None);
    assert_eq!(parent_of(&parents, 3), Some(2));
    assert_eq!(parent_of(&parents, 1), None);
}

fn row(label: &str, parent: Option<usize>) -> TreeRow {
    TreeRow { label: label.to_string(), parent }
}

#[test]
fn the_filter_shows_matches_and_the_rows_above_them() {
    let rows = vec![
        row("World", None),
        row("House", Some(0)),
        row("Torch", Some(1)),
        row("Tree", Some(0)),
        row("Sky", None),
    ];
    assert_eq!(filter_rows(&rows, " TORCH "), vec![true, true, true, false, false]);
    assert_eq!(filter_rows(&rows, ""), vec![true; 5]);
    assert_eq!(filter_rows(&rows, "   "), vec![true; 5]);
    assert_eq!(filter_rows(&rows, "zzz"), vec![false; 5]);
    assert_eq!(filter_rows(&rows, "t"), vec![true, true, true, true, false]);
}

#[test]
fn the_eye_hides_and_then_inherits() {
    assert_eq!(toggled_visibility(Visibility::Visible), Visibility::Hidden);
    assert_eq!(toggled_visibility(Visibility::Inherited), Visibility::Hidden);
    assert_eq!(toggled_visibility(Visibility::Hidden), Visibility::Inherited);
    assert_eq!(toggled_visibility(toggled_visibility(Visibility::Visible)), Visibility::Inherited);
}

#[test]
fn a_template_needs_a_name() {
    assert_eq!(template_name_from_input("  Lamp  "), Some("Lamp".to_string()));
    assert_eq!(template_name_from_input(" \t "), None);
}

#[test]
fn a_right_click_keeps_a_selection_that_holds_the_row() {
    assert_eq!(selection_for_context_menu(&vec![1, 2], 2), vec![1, 2]);
    assert_eq!(selection_for_context_menu(&vec![1, 2], 3), vec![3]);
    assert_eq!(selection_for_context_menu(&vec![], 3), vec![3]);
}

#[test]
fn renames_and_reparented_rows() {
    assert!(rename_changes_name("Lamp", "Light"));
    assert!(!rename_changes_name("Lamp", "Lamp"));
    assert_eq!(row_move_on_reparent(true, Some(9), false), RowMove::MoveInto(9));
    assert_eq!(row_move_on_reparent(true, None, true), RowMove::Drop);
    assert_eq!(row_move_on_reparent(false, Some(9), true), RowMove::SpawnInto(9));
    assert_eq!(row_move_on_reparent(false, Some(9), false), RowMove::Wait);
    assert_eq!(row_move_on_reparent(false, None, true), RowMove::Wait);
    assert!(expansion_populates(true, false));
    assert!(!expansion_populates(true, true));
    assert!(!expansion_populates(false, false));
}

fn marks() -> CategoryMarks {
    CategoryMarks {
        camera: false,
        point_light: false,
        directional_light: false,
        spot_light: false,
        mesh: false,
        scene_root: false,
    }
}

#[test]
fn a_row_icon_follows_the_first_matching_kind() {
    assert_eq!(classify_entity(marks()), EntityCategory::Entity);
    assert_eq!(classify_entity(CategoryMarks { camera: true, mesh: true, ..marks() }), EntityCategory::Camera);
    assert_eq!(classify_entity(CategoryMarks { spot_light: true, mesh: true, ..marks() }), EntityCategory::Light);
    assert_eq!(classify_entity(CategoryMarks { mesh: true, scene_root: true, ..marks() }), EntityCategory::Mesh);
    assert_eq!(classify_entity(CategoryMarks { scene_root: true, ..marks() }), EntityCategory::Scene);
}

#[test]
fn only_children_the_panel_shows_give_an_expander() {
    assert!(!has_visible_children(&vec![]));
    assert!(!has_visible_children(&vec![(true, false), (false, true)]));
    assert!(has_visible_children(&vec![(true, false), (false, false)]));
}

#[test]
fn context_menu_picks_become_actions() {
    assert_eq!(context_action("hierarchy.rename", Some(4)), HierarchyAction::Rename(4));
    assert_eq!(context_action("hierarchy.duplicate", None), HierarchyAction::Duplicate);
    assert_eq!(context_action("hierarchy.delete", Some(4)), HierarchyAction::Delete);
    assert_eq!(
        context_action("hierarchy.add_light", Some(4)),
        HierarchyAction::AddChild(ChildTemplate::PointLight, 4)
    );
    assert_eq!(context_action("hierarchy.add_cube", None), HierarchyAction::Nothing);
    assert_eq!(context_action("hierarchy.save_template", Some(7)), HierarchyAction::SaveTemplate(7));
    assert_eq!(context_action("---", Some(7)), HierarchyAction::Nothing);
    assert_eq!(default_template_name(Some("Lamp")), "Lamp");
    assert_eq!(default_template_name(None), "template");
}

#[test]
fn an_accepted_drop_keeps_the_scene_a_tree() {
    let mut parents = scene();
    let m = drop_on_row(&parents, 3, 4).expect("4 is not under 3");
    parents.insert(m.entity, m.new_parent.unwrap());
    assert_eq!(parent_of(&parents, 3), Some(4));
    assert!(!can_drop_on(&parents, 4, 3));
    assert!(can_drop_on(&parents, 3, 2));
    let up = drop_on_root(&parents, 3).expect("3 has a parent");
    parents.remove(&up.entity);
    assert_eq!(parent_of(&parents, 3), None);
}

#[test]
fn row_clicks_toggle_clear_or_select() {
    assert_eq!(row_click(true, true), RowClick::Toggle);
    assert_eq!(row_click(true, false), RowClick::Toggle);
    assert_eq!(row_click(false, true), RowClick::Clear);
    assert_eq!(row_click(false, false), RowClick::SelectOnly);
}
