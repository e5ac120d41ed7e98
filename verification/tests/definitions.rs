use jackdaw::definitions::{
    definition_dir, definition_path, definition_scan_order, definition_write_plan, resolve_choice,
    PathResolution, WritePlan, OpenPlan, definition_card_name, open_kind_gone, triggers_rescan, FileEventKind, deletes_open_definition, definition_list_report, new_definition_name, next_free_name,
    sanitize_definition_name, DefinitionEditSession, DefinitionEntry, DefinitionKindInfo,
    DefinitionRegistry, NewDefinitionError,
};

fn entry(kind: &str, name: &str, handle: u32) -> DefinitionEntry<u32> {
    DefinitionEntry {
        kind: kind.to_string(),
        name: name.to_string(),
        handle,
        path: format!("assets/content/{kind}s/{name}.{kind}.bsn"),
    }
}

fn item_kind() -> DefinitionKindInfo {
    DefinitionKindInfo { label: "Item".to_string(), scanned: true }
}

#[test]
fn names_sanitize_to_one_file_each() {
    assert_eq!(sanitize_definition_name("torch"), "torch");
    assert_eq!(sanitize_definition_name("a/b"), "a_b");
    assert_eq!(sanitize_definition_name("../escape"), ".._escape");
    assert_eq!(sanitize_definition_name("  "), "definition");
}

#[test]
fn sanitizing_twice_changes_nothing_more() {
    for name in ["torch", "a/b", "../escape", "  ", " x:y ", "héllo wörld"] {
        let once = sanitize_definition_name(name);
        assert_eq!(sanitize_definition_name(&once), once);
    }
}

#[test]
fn a_registered_definition_is_found_by_kind_and_name() {
    let mut registry = DefinitionRegistry::new();
    registry.insert(entry("item", "torch", 1));
    let found = registry.get("item", "torch").expect("the entry is there");
    assert_eq!(found.handle, 1);
    assert!(registry.get("mob", "torch").is_none());
    assert!(registry.get("item", "coin").is_none());
}

#[test]
fn inserting_again_replaces_the_entry() {
    let mut registry = DefinitionRegistry::new();
    registry.insert(entry("item", "torch", 1));
    registry.insert(entry("item", "torch", 2));
    assert_eq!(registry.entries.len(), 1);
    assert_eq!(registry.get("item", "torch").unwrap().handle, 2);
}

#[test]
fn a_removed_definition_is_gone() {
    let mut registry = DefinitionRegistry::new();
    registry.insert(entry("item", "torch", 1));
    registry.insert(entry("item", "coin", 2));
    registry.remove("item", "torch");
    assert!(registry.get("item", "torch").is_none());
    assert_eq!(registry.get("item", "coin").unwrap().handle, 2);
}

#[test]
fn two_kinds_may_hold_the_same_name() {
    let mut registry = DefinitionRegistry::new();
    registry.insert(entry("item", "rat", 1));
    registry.insert(entry("mob", "rat", 2));
    assert_eq!(registry.get("item", "rat").unwrap().handle, 1);
    assert_eq!(registry.get("mob", "rat").unwrap().handle, 2);
    assert_eq!(registry.names_of("item"), vec!["rat".to_string()]);
}

#[test]
fn names_of_a_kind_come_sorted() {
    let mut registry = DefinitionRegistry::new();
    registry.insert(entry("item", "torch", 1));
    registry.insert(entry("item", "coin", 2));
    registry.insert(entry("mob", "bat", 3));
    registry.insert(entry("item", "apple", 4));
    assert_eq!(
        registry.names_of("item"),
        vec!["apple".to_string(), "coin".to_string(), "torch".to_string()]
    );
}

#[test]
fn an_entry_whose_file_went_is_dropped_on_rescan() {
    let mut registry = DefinitionRegistry::new();
    registry.insert(entry("item", "torch", 1));
    registry.insert(entry("item", "coin", 2));
    registry.insert(entry("mob", "torch", 3));
    let gone = registry.forget_missing("item", &vec!["coin".to_string()]);
    assert_eq!(gone, vec!["torch".to_string()]);
    assert!(registry.get("item", "torch").is_none());
    assert!(registry.get("item", "coin").is_some());
    assert!(registry.get("mob", "torch").is_some());
}

#[test]
fn a_rescan_loads_only_new_files() {
    let mut registry = DefinitionRegistry::new();
    registry.insert(entry("item", "coin", 2));
    let files = vec![
        ("coin".to_string(), "assets/content/items/coin.item.bsn".to_string()),
        ("torch".to_string(), "assets/content/items/torch.item.bsn".to_string()),
    ];
    assert_eq!(
        registry.pending_files("item", &files),
        vec![("torch".to_string(), "assets/content/items/torch.item.bsn".to_string())]
    );
}

#[test]
fn numbered_names_skip_taken_ones() {
    let mut registry = DefinitionRegistry::new();
    registry.insert(entry("item", "Item_1", 1));
    let files = vec!["Item_2".to_string()];
    assert_eq!(next_free_name(&registry, "item", "Item", &files), "Item_3");
    assert_eq!(next_free_name(&registry, "mob", "Item", &vec![]), "Item_1");
}

#[test]
fn creating_a_definition_names_it_or_says_why_not() {
    let mut registry = DefinitionRegistry::new();
    registry.insert(entry("item", "torch", 1));
    let files = vec!["coin".to_string()];
    let kind = item_kind();
    let elsewhere = DefinitionKindInfo { label: "Mob".to_string(), scanned: false };

    assert_eq!(
        new_definition_name(&registry, "item", Some(&kind), Some("rat"), &files),
        Ok("rat".to_string())
    );
    assert_eq!(
        new_definition_name(&registry, "item", Some(&kind), Some("a/b"), &files),
        Ok("a_b".to_string())
    );
    assert_eq!(
        new_definition_name(&registry, "item", Some(&kind), None, &files),
        Ok("Item_1".to_string())
    );
    assert_eq!(
        new_definition_name(&registry, "ghost", None, Some("rat"), &files),
        Err(NewDefinitionError::UnknownKind)
    );
    assert_eq!(
        new_definition_name(&registry, "mob", Some(&elsewhere), Some("rat"), &files),
        Err(NewDefinitionError::LoadedElsewhere)
    );
    assert_eq!(
        new_definition_name(&registry, "item", Some(&kind), Some("torch"), &files),
        Err(NewDefinitionError::NameTaken)
    );
    assert_eq!(
        new_definition_name(&registry, "item", Some(&kind), Some("coin"), &files),
        Err(NewDefinitionError::FileExists)
    );
}

#[test]
fn deleting_the_open_definition_is_noticed() {
    assert!(deletes_open_definition(Some(("item", "torch")), "item", "torch"));
    assert!(!deletes_open_definition(Some(("item", "torch")), "mob", "torch"));
    assert!(!deletes_open_definition(Some(("item", "torch")), "item", "coin"));
    assert!(!deletes_open_definition(None, "item", "torch"));
}

#[test]
fn the_list_report_names_each_definition() {
    let names = vec!["apple".to_string(), "coin".to_string()];
    assert_eq!(definition_list_report("item", &names), "item: apple, coin");
    assert_eq!(definition_list_report("mob", &vec![]), "mob: ");
}

#[test]
fn a_drag_commits_against_the_value_before_its_first_tick() {
    let mut session: DefinitionEditSession<u32> = DefinitionEditSession::new();
    assert!(session.needs_baseline("Item", "stack_size"));
    session.remember_baseline("Item", "stack_size", Some(20));
    assert!(!session.needs_baseline("Item", "stack_size"));
    assert!(session.needs_baseline("Item", "rarity"));
    session.remember_baseline("Item", "stack_size", Some(25));
    assert_eq!(session.take_baseline("Item", "stack_size"), Some(20));
    assert!(session.needs_baseline("Item", "stack_size"));
}

#[test]
fn a_commit_on_another_field_gets_no_baseline() {
    let mut session: DefinitionEditSession<u32> = DefinitionEditSession::new();
    session.remember_baseline("Item", "stack_size", Some(20));
    assert_eq!(session.take_baseline("Item", "rarity"), None);
    assert!(session.needs_baseline("Item", "stack_size"));
    assert_eq!(session.take_baseline("Item", "stack_size"), None);
}

#[test]
fn entries_of_unregistered_kinds_are_forgotten() {
    let mut registry = DefinitionRegistry::new();
    registry.insert(entry("item", "torch", 1));
    registry.insert(entry("mob", "rat", 2));
    registry.insert(entry("item", "coin", 3));
    registry.retain_registered(&vec!["item".to_string()]);
    let handles: Vec<u32> = registry.entries.iter().map(|e| e.handle).collect();
    assert_eq!(handles, vec![1, 3]);
    assert!(open_kind_gone(Some("mob"), &vec!["item".to_string()]));
    assert!(!open_kind_gone(Some("item"), &vec!["item".to_string()]));
    assert!(!open_kind_gone(None, &vec![]));
}

#[test]
fn a_kind_can_be_forgotten_whole() {
    let mut registry = DefinitionRegistry::new();
    registry.insert(entry("material", "brick", 1));
    registry.insert(entry("item", "torch", 2));
    registry.insert(entry("material", "stone", 3));
    registry.forget_kind("material");
    let handles: Vec<u32> = registry.entries.iter().map(|e| e.handle).collect();
    assert_eq!(handles, vec![2]);
}

#[test]
fn only_files_coming_and_going_call_for_a_rescan() {
    assert!(triggers_rescan(FileEventKind::Create));
    assert!(triggers_rescan(FileEventKind::Remove));
    assert!(triggers_rescan(FileEventKind::Rename));
    assert!(!triggers_rescan(FileEventKind::Modify));
    assert!(!triggers_rescan(FileEventKind::Access));
    assert!(!triggers_rescan(FileEventKind::Other));
}

#[test]
fn the_card_names_the_definition_and_its_type() {
    assert_eq!(definition_card_name("torch", "item", Some("Item")), "torch (Item)");
    assert_eq!(definition_card_name("torch", "item", None), "torch (item)");
}

#[test]
fn opening_a_file_uses_what_is_loaded_first() {
    let mut registry = DefinitionRegistry::new();
    registry.insert(entry("item", "torch", 1));
    assert_eq!(registry.open_plan("item", "torch", false), OpenPlan::UseLoaded);
    assert_eq!(registry.open_plan("item", "coin", true), OpenPlan::LoadFile);
    assert_eq!(registry.open_plan("mob", "rat", false), OpenPlan::Refuse);
}

#[test]
fn definitions_live_in_their_kinds_directory() {
    assert_eq!(definition_dir("/p/assets", "content/items"), "/p/assets/content/items");
    assert_eq!(definition_dir("/p/assets/", "content/items"), "/p/assets/content/items");
    assert_eq!(definition_dir("/p/assets", "/elsewhere"), "/elsewhere");
    assert_eq!(definition_dir("", "content/items"), "content/items");
    assert_eq!(
        definition_path("assets", "content/items", "torch", ".item.bsn"),
        "assets/content/items/torch.item.bsn"
    );
    assert_eq!(
        definition_path("assets", "content/mobs", "a/b", ".mob.bsn"),
        "assets/content/mobs/a_b.mob.bsn"
    );
}

#[test]
fn a_scan_takes_files_by_path() {
    let pair = |n: &str, p: &str| (n.to_string(), p.to_string());
    let files = vec![pair("torch", "d/torch.item.bsn"), pair("coin", "d/coin.item.bsn"), pair("apple", "d/apple.item.bsn")];
    assert_eq!(
        definition_scan_order(files),
        vec![pair("apple", "d/apple.item.bsn"), pair("coin", "d/coin.item.bsn"), pair("torch", "d/torch.item.bsn")]
    );
    assert_eq!(definition_scan_order(vec![]), vec![]);
}

#[test]
fn a_passed_path_resolves_against_the_project() {
    assert_eq!(resolve_choice(true, true, true), PathResolution::AsGiven);
    assert_eq!(resolve_choice(false, false, true), PathResolution::AsGiven);
    assert_eq!(resolve_choice(false, true, true), PathResolution::UnderRoot);
    assert_eq!(resolve_choice(false, true, false), PathResolution::UnderAssets);
}

#[test]
fn blank_text_is_refused_and_an_unchanged_file_is_left_alone() {
    assert_eq!(definition_write_plan("  \n", None), WritePlan::NothingToWrite);
    assert_eq!(definition_write_plan("", Some("")), WritePlan::NothingToWrite);
    assert_eq!(definition_write_plan("a: 1", Some("a: 1")), WritePlan::Unchanged);
    assert_eq!(definition_write_plan("a: 1", Some("a: 2")), WritePlan::Write);
    assert_eq!(definition_write_plan("a: 1", None), WritePlan::Write);
}

#[test]
fn a_registry_built_by_its_operations_holds_each_definition_once() {
    let mut registry = DefinitionRegistry::new();
    registry.insert(entry("item", "torch", 1));
    registry.insert(entry("item", "torch", 2));
    registry.insert(entry("mob", "torch", 3));
    assert_eq!(registry.entries.len(), 2);
    assert_eq!(registry.get("item", "torch").unwrap().handle, 2);
    assert_eq!(registry.get("mob", "torch").unwrap().handle, 3);
}

#[test]
fn loaded_files_are_recorded_and_failed_loads_skipped() {
    let mut registry = DefinitionRegistry::new();
    registry.insert(entry("item", "coin", 2));
    let pending = vec![
        ("torch".to_string(), "assets/content/items/torch.item.bsn".to_string()),
        ("broken".to_string(), "assets/content/items/broken.item.bsn".to_string()),
        ("rope".to_string(), "assets/content/items/rope.item.bsn".to_string()),
    ];
    let added = registry.record_loaded(&"item".to_string(), pending, vec![Some(7), None, Some(9)]);
    assert_eq!(added, vec!["torch".to_string(), "rope".to_string()]);
    assert_eq!(registry.entries.len(), 3);
    let torch = registry.get("item", "torch").unwrap();
    assert_eq!(torch.handle, 7);
    assert_eq!(torch.path, "assets/content/items/torch.item.bsn");
    assert_eq!(registry.get("item", "rope").unwrap().handle, 9);
    assert!(registry.get("item", "broken").is_none());
    assert_eq!(registry.get("item", "coin").unwrap().handle, 2);
}

#[test]
fn a_doubled_entry_whose_file_went_is_reported_for_each_copy() {
    let mut registry = DefinitionRegistry::new();
    registry.insert(entry("item", "coin", 2));
    registry.entries.push(entry("item", "torch", 1));
    registry.entries.push(entry("item", "torch", 5));
    let gone = registry.forget_missing("item", &vec!["coin".to_string()]);
    assert_eq!(gone, vec!["torch".to_string(), "torch".to_string()]);
    assert!(registry.get("item", "torch").is_none());
    assert_eq!(registry.entries.len(), 1);
}
