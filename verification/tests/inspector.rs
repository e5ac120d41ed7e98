use jackdaw::inspector::{
    field_row, item_path, top_field_path, top_items_header, items_header, member_path, selected_variant_index, FieldRow, FieldShape,
    MAX_REFLECT_DEPTH, component_display_order, multi_selection_header, ComponentListing, extract_module_group, face_panel_header, filter_component_picker, is_opaque_type,
    new_property_name, picker_click, picker_entries, property_row, property_type_index, texture_label,
    PropertyKind, PropertyRow,
    ComponentCandidate, FacePanelState, FacePanelStep, PickerClick,
};

#[test]
fn well_known_modules_get_their_labels() {
    assert_eq!(extract_module_group(Some("bevy_pbr::material")), "Render");
    assert_eq!(extract_module_group(Some("bevy_transform")), "Transform");
    assert_eq!(extract_module_group(Some("bevy_core_pipeline::tonemapping")), "Render");
    assert_eq!(extract_module_group(Some("bevy_winit")), "Window");
    assert_eq!(extract_module_group(Some("bevy_gltf::loader")), "GLTF");
    assert_eq!(extract_module_group(Some("ui")), "UI");
}

#[test]
fn other_modules_are_capitalized() {
    assert_eq!(extract_module_group(Some("avian3d::dynamics")), "Avian3d");
    assert_eq!(extract_module_group(Some("bevy_light::point")), "Light");
    assert_eq!(extract_module_group(Some("ëlan::x")), "Ëlan");
}

#[test]
fn no_module_files_under_other() {
    assert_eq!(extract_module_group(None), "Other");
    assert_eq!(extract_module_group(Some("")), "Other");
    assert_eq!(extract_module_group(Some("bevy_")), "Other");
    assert_eq!(extract_module_group(Some("::x")), "Other");
}

#[test]
fn the_search_matches_names_ignoring_case_and_padding() {
    assert!(filter_component_picker("", "Transform"));
    assert!(filter_component_picker("   ", "Transform"));
    assert!(filter_component_picker(" trans ", "Transform"));
    assert!(filter_component_picker("FORM", "Transform"));
    assert!(!filter_component_picker("light", "Transform"));
}

#[test]
fn handles_ids_and_cows_are_not_opened() {
    assert!(is_opaque_type(Some("bevy_asset::handle::Handle<bevy_image::Image>")));
    assert!(is_opaque_type(Some("bevy_asset::id::AssetId<bevy_mesh::Mesh>")));
    assert!(is_opaque_type(Some("alloc::borrow::Cow<str>")));
    assert!(!is_opaque_type(Some("bevy_transform::components::Transform")));
    assert!(!is_opaque_type(None));
}

fn candidate(short: &str, path: &str, on_entity: bool) -> ComponentCandidate {
    ComponentCandidate {
        short_name: short.to_string(),
        type_path: path.to_string(),
        reflects_component: true,
        reflects_default: true,
        on_entity,
        known_to_world: true,
    }
}

#[test]
fn the_picker_lists_what_can_be_added_by_name() {
    let mut no_default = candidate("Camera", "bevy_camera::Camera", false);
    no_default.reflects_default = false;
    let candidates = vec![
        candidate("Transform", "bevy_transform::Transform", false),
        candidate("Name", "bevy_ecs::name::Name", true),
        candidate("aabb", "bevy_camera::Aabb", false),
        candidate("EditorEntity", "bevy_scene_editor::EditorEntity", false),
        no_default,
        candidate("Visibility", "bevy_render::Visibility", false),
        candidate("AABB", "other::AABB", false),
        candidate("Brush", "jackdaw::Brush", false),
    ];
    assert_eq!(picker_entries(&candidates), vec![2, 6, 7, 0, 5]);
}

#[test]
fn a_click_toggles_the_picker() {
    assert_eq!(picker_click(false, None, true), PickerClick::Ignore);
    assert_eq!(picker_click(true, Some(4), true), PickerClick::Close(4));
    assert_eq!(picker_click(true, None, true), PickerClick::Open);
    assert_eq!(picker_click(true, None, false), PickerClick::Ignore);
}

#[test]
fn a_new_property_needs_a_name() {
    assert_eq!(new_property_name("  speed "), Some("speed".to_string()));
    assert_eq!(new_property_name("   "), None);
    assert_eq!(new_property_name(""), None);
}

#[test]
fn the_type_index_is_held_to_the_last_type() {
    assert_eq!(property_type_index(2, 6), 2);
    assert_eq!(property_type_index(9, 6), 5);
    assert_eq!(property_type_index(3, 0), 0);
}

#[test]
fn the_face_panel_rebuilds_only_on_change() {
    let mut panel = FacePanelState::new();
    let hashes = vec![5, 7, u64::MAX];
    let faces = vec![0, 2];
    assert_eq!(panel.step(true, Some(9), &faces, true, &hashes), FacePanelStep::Rebuild);
    assert_eq!(panel.data_hash, 4);
    assert_eq!(panel.step(true, Some(9), &faces, true, &hashes), FacePanelStep::Keep);
    let changed = vec![6, 7, u64::MAX];
    assert_eq!(panel.step(true, Some(9), &faces, true, &changed), FacePanelStep::Rebuild);
    assert_eq!(panel.step(true, Some(9), &vec![1], false, &changed), FacePanelStep::Keep);
    assert_eq!(panel.step(false, Some(9), &faces, true, &changed), FacePanelStep::Clear);
    assert_eq!(panel.entity, None);
    assert_eq!(panel.step(false, Some(9), &faces, true, &changed), FacePanelStep::Keep);
}

#[test]
fn the_face_panel_header_counts_faces() {
    assert_eq!(face_panel_header(&vec![3]), "Face 3");
    assert_eq!(face_panel_header(&vec![3, 4, 5]), "3 faces selected");
    assert_eq!(texture_label(Some("textures/brick.png")), "textures/brick.png");
    assert_eq!(texture_label(None), "No Texture");
}

fn listing(path: &str, short: &str, module: Option<&str>) -> ComponentListing {
    ComponentListing {
        type_path: path.to_string(),
        short_name: short.to_string(),
        module: module.map(|m| m.to_string()),
    }
}

#[test]
fn components_are_grouped_then_sorted_by_name() {
    let listings = vec![
        listing("bevy_transform::components::Transform", "Transform", Some("bevy_transform::components")),
        listing("bevy_render::view::Visibility", "Visibility", Some("bevy_render::view")),
        listing("bevy_scene_editor::Marker", "Marker", Some("bevy_scene_editor")),
        listing("bevy_transform::components::GlobalTransform", "GlobalTransform", Some("bevy_transform::components")),
        listing("my_game::Health", "Health", None),
        listing("bevy_pbr::MeshMaterial3d", "meshMaterial3d", Some("bevy_pbr")),
    ];
    let rows = component_display_order(&listings);
    let shown: Vec<(usize, String, bool)> =
        rows.iter().map(|r| (r.index, r.group.clone(), r.starts_group)).collect();
    assert_eq!(
        shown,
        vec![
            (4, "Other".to_string(), true),
            (5, "Render".to_string(), true),
            (1, "Render".to_string(), false),
            (3, "Transform".to_string(), true),
            (0, "Transform".to_string(), false),
        ]
    );
}

#[test]
fn several_selected_entities_get_a_header() {
    assert_eq!(multi_selection_header(1), None);
    assert_eq!(multi_selection_header(0), None);
    assert_eq!(
        multi_selection_header(3),
        Some("3 entities selected — edits apply to all".to_string())
    );
}

#[test]
fn each_kind_of_field_gets_its_row() {
    assert_eq!(field_row(FieldShape::EntityRef, false, 0), FieldRow::EntityLink);
    assert_eq!(field_row(FieldShape::List(3), false, 0), FieldRow::Items);
    assert_eq!(field_row(FieldShape::Dict(0), false, 9), FieldRow::Items);
    assert_eq!(field_row(FieldShape::Vec3, false, 0), FieldRow::Vec3Row);
    assert_eq!(field_row(FieldShape::Color, false, 0), FieldRow::ColorPicker);
    assert_eq!(field_row(FieldShape::Bool, false, 0), FieldRow::Toggle);
    assert_eq!(field_row(FieldShape::Number, false, 0), FieldRow::NumberInput);
    assert_eq!(field_row(FieldShape::Enum(true), false, 0), FieldRow::EnumChoice);
    assert_eq!(field_row(FieldShape::Enum(false), false, 0), FieldRow::VariantName);
    assert_eq!(field_row(FieldShape::Struct, true, 0), FieldRow::Summary);
    assert_eq!(field_row(FieldShape::Struct, false, 0), FieldRow::Nested);
    assert_eq!(field_row(FieldShape::Tuple, false, MAX_REFLECT_DEPTH - 1), FieldRow::Nested);
    assert_eq!(field_row(FieldShape::TupleStruct, false, MAX_REFLECT_DEPTH), FieldRow::ReadOnlyText);
    assert_eq!(field_row(FieldShape::Text, false, 0), FieldRow::EditableText);
    assert_eq!(field_row(FieldShape::Other, true, 0), FieldRow::ReadOnlyText);
}

#[test]
fn field_paths_and_collection_headers() {
    assert_eq!(item_path("", "2"), "[2]");
    assert_eq!(item_path("points", "2"), "points[2]");
    assert_eq!(item_path("scores", "\"bob\""), "scores[\"bob\"]");
    assert_eq!(member_path("", "x"), ".x");
    assert_eq!(member_path("transform", "0"), "transform.0");
    assert_eq!(items_header("points", FieldShape::List(3)), Some("points: [3 items]".to_string()));
    assert_eq!(items_header("grid", FieldShape::Array(0)), Some("grid: [0 items]".to_string()));
    assert_eq!(items_header("scores", FieldShape::Dict(12)), Some("scores: { 12 entries }".to_string()));
    assert_eq!(items_header("tags", FieldShape::Bag(1)), Some("tags: { 1 items }".to_string()));
    assert_eq!(items_header("speed", FieldShape::Number), None);
}

#[test]
fn an_enum_drop_down_starts_on_the_current_variant() {
    let names = vec!["Low".to_string(), "High".to_string(), "High".to_string()];
    assert_eq!(selected_variant_index(&names, "High"), 1);
    assert_eq!(selected_variant_index(&names, "Mid"), 0);
    assert_eq!(selected_variant_index(&vec![], "Mid"), 0);
}

#[test]
fn a_component_root_names_its_fields_plainly() {
    assert_eq!(top_field_path("", "speed", true), "speed");
    assert_eq!(top_field_path("", "0", false), ".0");
    assert_eq!(top_field_path("body", "speed", true), "body.speed");
    assert_eq!(top_items_header(FieldShape::List(2)), Some("[2 items]".to_string()));
    assert_eq!(top_items_header(FieldShape::Dict(1)), Some("{ 1 entries }".to_string()));
    assert_eq!(top_items_header(FieldShape::Bag(0)), Some("{ 0 items }".to_string()));
    assert_eq!(top_items_header(FieldShape::Struct), None);
}

#[test]
fn each_property_kind_gets_its_editor() {
    assert_eq!(property_row(PropertyKind::Bool), PropertyRow::Checkbox);
    assert_eq!(property_row(PropertyKind::Int), PropertyRow::NumberInput);
    assert_eq!(property_row(PropertyKind::Float), PropertyRow::NumberInput);
    assert_eq!(property_row(PropertyKind::Text), PropertyRow::TextInput);
    assert_eq!(property_row(PropertyKind::Vec2), PropertyRow::AxisInputs(2));
    assert_eq!(property_row(PropertyKind::Vec3), PropertyRow::AxisInputs(3));
    assert_eq!(property_row(PropertyKind::Color), PropertyRow::ColorPicker);
}
