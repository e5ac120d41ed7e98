use jackdaw::browser::{
    AssetBrowserState, BrowserViewMode, breadcrumb_text, browser_entries, double_click_action, is_image_file, DirEntry, DoubleClick,
};
use jackdaw::brush::{BrushEditMode, EditMode};

fn entry(name: &str, dir: bool) -> DirEntry {
    DirEntry { path: format!("assets/{name}"), file_name: name.to_string(), is_directory: dir }
}

fn names(entries: &[DirEntry]) -> Vec<String> {
    entries.iter().map(|e| e.file_name.clone()).collect()
}

#[test]
fn directories_come_first_then_names_ignoring_case() {
    let read = vec![
        entry("b.png", false),
        entry("Zeta", true),
        entry(".hidden", false),
        entry("A.png", false),
        entry("alpha", true),
    ];
    assert_eq!(names(&browser_entries(&read, "")), vec!["alpha", "Zeta", "A.png", "b.png"]);
}

#[test]
fn the_filter_keeps_names_holding_it() {
    let read = vec![entry("Brick.png", false), entry("stone.png", false), entry("bricks", true)];
    assert_eq!(names(&browser_entries(&read, "BRICK")), vec!["bricks", "Brick.png"]);
    assert!(browser_entries(&read, "wood").is_empty());
}

#[test]
fn the_breadcrumb_spaces_its_separators() {
    assert_eq!(breadcrumb_text("", '/'), "/");
    assert_eq!(breadcrumb_text("textures/walls", '/'), "/ textures / walls");
}

#[test]
fn images_are_known_by_their_ending() {
    assert!(is_image_file("a/b.PNG"));
    assert!(is_image_file("x.jpeg"));
    assert!(is_image_file("x.webp"));
    assert!(!is_image_file("x.gltf"));
    assert!(!is_image_file("png"));
}

#[test]
fn a_double_click_opens_or_applies() {
    let face = EditMode::BrushEdit(BrushEditMode::Face);
    assert_eq!(double_click_action(true, "dir", EditMode::Object, false, false), DoubleClick::OpenDirectory);
    assert_eq!(double_click_action(false, "t.png", face, true, true), DoubleClick::ApplyTexture);
    assert_eq!(double_click_action(false, "t.png", face, false, true), DoubleClick::Nothing);
    assert_eq!(double_click_action(false, "t.png", EditMode::Object, true, true), DoubleClick::Nothing);
    assert_eq!(double_click_action(false, "t.obj", face, true, true), DoubleClick::Nothing);
}

#[test]
fn the_browser_roots_itself_at_assets_and_lists_what_it_reads() {
    let mut state = AssetBrowserState::new("/project");
    assert_eq!(state.view_mode, BrowserViewMode::Grid);
    assert!(state.needs_refresh);
    state.root_at_assets("/project/assets", false);
    assert_eq!(state.root_directory, "/project");
    state.root_at_assets("/project/assets", true);
    assert_eq!(state.current_directory, "/project/assets");
    assert_eq!(state.root_directory, "/project/assets");
    assert!(state.take_refresh());
    assert!(!state.take_refresh());
    state.filter = "b".to_string();
    state.refreshed(&vec![entry("a.png", false), entry("b.png", false), entry("bin", true)]);
    assert_eq!(names(&state.entries), vec!["bin", "b.png"]);
    state.open_directory("/project/assets/bin");
    assert_eq!(state.current_directory, "/project/assets/bin");
    assert_eq!(state.root_directory, "/project/assets");
    assert!(state.needs_refresh);
}
