use jackdaw::animation::{
    loop_button_label, selected_state, clip_event_name, clip_event_row, clip_event_row_name, clip_of_spec, clip_select, entry_caption,
    event_row, graph_preview_target, highlight_of, open_row_choice, pass_of, play_button_label,
    redraw_needed, rename_on_commit, running_highlight, state_is_lit, switch_after, toolbar_title,
    wire_is_lit, AnimationGraphPlayback, AnimationGraphTransition, ChildEntry, ClipEventEdit,
    ClipPass, EditStep, EventRow, GraphHighlight, RowOpening, ToolbarSignature,
};

/// The pass between two readings of the playhead, as the editor takes them.
fn pass_between(previous: f32, now: f32, playing: bool) -> ClipPass {
    pass_of(now < previous, playing)
}

fn transition(from: &str, remaining_secs: f32) -> AnimationGraphTransition {
    AnimationGraphTransition { from: from.into(), running: remaining_secs > 0.0 }
}

#[test]
fn the_highlight_names_the_state_the_rig_is_in() {
    let playback = AnimationGraphPlayback { state: "run".into(), transition: None };
    assert_eq!(
        highlight_of(&playback),
        GraphHighlight { state: "run".into(), fading_from: None }
    );
}

#[test]
fn a_crossfade_still_running_lights_the_state_it_leaves() {
    let playback = AnimationGraphPlayback {
        state: "run".into(),
        transition: Some(transition("idle", 0.1)),
    };
    assert_eq!(highlight_of(&playback).fading_from.as_deref(), Some("idle"));
}

#[test]
fn a_crossfade_that_has_run_out_lights_nothing_behind_it() {
    let playback = AnimationGraphPlayback {
        state: "run".into(),
        transition: Some(transition("idle", 0.0)),
    };
    assert!(highlight_of(&playback).fading_from.is_none());
}

#[test]
fn a_playing_clip_that_reads_back_has_wrapped() {
    assert_eq!(pass_between(0.9, 0.1, true), ClipPass::ForwardWrapped);
    assert_eq!(pass_between(0.1, 0.9, true), ClipPass::Forward);
}

#[test]
fn a_parked_clip_that_reads_back_was_scrubbed_back() {
    assert_eq!(pass_between(0.9, 0.1, false), ClipPass::Backward);
    assert_eq!(pass_between(0.1, 0.9, false), ClipPass::Forward);
}

#[test]
fn a_playhead_that_did_not_move_reads_as_a_forward_step() {
    assert_eq!(pass_between(0.5, 0.5, true), ClipPass::Forward);
    assert_eq!(pass_between(0.5, 0.5, false), ClipPass::Forward);
}

#[test]
fn the_first_rig_playing_the_graph_gives_the_highlight() {
    let playbacks = vec![
        ("walk.graph".to_string(), AnimationGraphPlayback { state: "walk".into(), transition: None }),
        (
            "hero.graph".to_string(),
            AnimationGraphPlayback { state: "run".into(), transition: Some(transition("idle", 0.2)) },
        ),
        ("hero.graph".to_string(), AnimationGraphPlayback { state: "jump".into(), transition: None }),
    ];
    assert_eq!(
        running_highlight(&playbacks, "hero.graph"),
        GraphHighlight { state: "run".into(), fading_from: Some("idle".into()) }
    );
    assert_eq!(
        running_highlight(&playbacks, "none.graph"),
        GraphHighlight { state: String::new(), fading_from: None }
    );
}

#[test]
fn only_the_running_state_and_its_incoming_wire_are_lit() {
    let lit = GraphHighlight { state: "run".into(), fading_from: Some("idle".into()) };
    assert!(state_is_lit(&lit, Some("run")));
    assert!(!state_is_lit(&lit, Some("idle")));
    assert!(!state_is_lit(&lit, None));
    assert!(wire_is_lit(&lit, Some("idle"), Some("run")));
    assert!(!wire_is_lit(&lit, Some("run"), Some("idle")));
    assert!(!wire_is_lit(&lit, Some("jump"), Some("run")));
    let settled = GraphHighlight { state: "run".into(), fading_from: None };
    assert!(!wire_is_lit(&settled, Some("idle"), Some("run")));
}

#[test]
fn the_selected_rig_wins_the_preview() {
    let playing = vec![
        (1, "other.graph".to_string()),
        (2, "hero.graph".to_string()),
        (3, "hero.graph".to_string()),
    ];
    assert_eq!(graph_preview_target(&playing, Some("hero.graph"), Some(3)), Some(3));
    assert_eq!(graph_preview_target(&playing, Some("hero.graph"), Some(1)), Some(2));
    assert_eq!(graph_preview_target(&playing, Some("hero.graph"), None), Some(2));
    assert_eq!(graph_preview_target(&playing, Some("none.graph"), Some(3)), None);
    assert_eq!(graph_preview_target(&playing, None, Some(3)), None);
}

#[test]
fn the_toolbar_says_what_is_open() {
    assert_eq!(toolbar_title(Some("hero.graph"), false), "hero.graph");
    assert_eq!(toolbar_title(Some("hero.graph"), true), "hero.graph (unsaved)");
    assert_eq!(toolbar_title(None, true), "No graph open");
    assert_eq!(entry_caption("idle"), "entry: idle");
    assert_eq!(entry_caption(""), "no entry state");
}

#[test]
fn a_row_name_tells_two_files_holding_the_same_clip_apart() {
    assert_eq!(clip_event_row_name("jan/jan.gltf", "run"), "jan/jan.gltf#run");
    assert_ne!(
        clip_event_row_name("jan/jan.gltf", "run"),
        clip_event_row_name("other/other.gltf", "run")
    );
    assert_eq!(clip_of_spec("jan/jan.gltf#run"), "run");
    assert_eq!(clip_of_spec("a#b#c"), "c");
    assert_eq!(clip_of_spec("run"), "run");
    assert_eq!(play_button_label("jan/jan.gltf#run"), "Play run");
}

#[test]
fn renaming_a_state_to_nothing_or_itself_is_no_rename() {
    assert_eq!(rename_on_commit("idle", ""), None);
    assert_eq!(rename_on_commit("idle", "idle"), None);
    assert_eq!(rename_on_commit("idle", "rest"), Some("rest".to_string()));
}

#[test]
fn a_switch_takes_the_value_asked_for_or_flips() {
    assert!(switch_after(Some(true), true));
    assert!(!switch_after(Some(false), true));
    assert!(!switch_after(None, true));
    assert!(switch_after(None, false));
}

#[test]
fn a_clip_event_without_a_name_is_called_event() {
    assert_eq!(clip_event_name(Some("footstep")), "footstep");
    assert_eq!(clip_event_name(Some("")), "Event");
    assert_eq!(clip_event_name(None), "Event");
}

#[test]
fn an_event_goes_under_the_picked_clip_or_the_previewed_library_clip() {
    assert!(matches!(event_row(Some(7), Some("jan.gltf#run"), Some(3)), Some(EventRow::Authored(7))));
    match event_row(None, Some("jan/jan.gltf#run"), Some(3)) {
        Some(EventRow::Named { owner, file, clip }) => {
            assert_eq!(owner, 3);
            assert_eq!(file, "jan/jan.gltf");
            assert_eq!(clip, "run");
        }
        _ => panic!("a library clip under the previewed entity"),
    }
    assert!(event_row(None, Some("jan/jan.gltf#run"), None).is_none());
    assert!(event_row(None, Some("run"), Some(3)).is_none());
    assert!(event_row(None, None, Some(3)).is_none());
}

fn child(entity: u64, is_clip: bool, placed: bool, name: Option<&str>) -> ChildEntry {
    ChildEntry { entity, is_clip, placed, name: name.map(|n| n.to_string()) }
}

#[test]
fn showing_a_clip_picks_the_named_one_or_the_first() {
    let children = vec![
        child(1, false, true, Some("Bone")),
        child(2, true, false, Some("walk")),
        child(3, true, false, Some("run")),
    ];
    assert_eq!(clip_select(&children, None), Some(2));
    assert_eq!(clip_select(&children, Some("")), Some(2));
    assert_eq!(clip_select(&children, Some("run")), Some(3));
    assert_eq!(clip_select(&children, Some("Bone")), None);
    assert_eq!(clip_select(&vec![], None), None);
}

#[test]
fn a_bone_named_like_the_clip_is_not_the_event_row() {
    let children = vec![child(1, false, true, Some("run")), child(2, false, false, Some("run"))];
    assert_eq!(clip_event_row(&children, &vec![true, true]), Some(2));
    assert_eq!(clip_event_row(&vec![child(1, false, true, Some("run"))], &vec![true]), None);
    assert_eq!(clip_event_row(&children, &vec![true, false]), None);
}

#[test]
fn an_event_row_is_found_made_or_missing() {
    let authored = EventRow::Authored(7);
    let named = EventRow::Named { owner: 3, file: "jan.gltf".into(), clip: "run".into() };
    assert_eq!(open_row_choice(&authored, true, None), RowOpening::Found(7));
    assert_eq!(open_row_choice(&authored, false, Some(9)), RowOpening::Gone);
    assert_eq!(open_row_choice(&named, true, Some(9)), RowOpening::Found(9));
    assert_eq!(open_row_choice(&named, true, None), RowOpening::Make);
    assert_eq!(open_row_choice(&named, false, Some(9)), RowOpening::Gone);
}

#[test]
fn undoing_an_added_event_takes_away_the_row_it_made() {
    let named = EventRow::Named { owner: 3, file: "jan.gltf".into(), clip: "run".into() };
    let mut edit = ClipEventEdit::adding(named, "footstep".into());
    assert_eq!(edit.step(false), EditStep::Spawn);
    assert_eq!(edit.step(true), EditStep::Despawn);
    edit.spawned(Some((10, true, 11)));
    assert_eq!(edit.despawned(), vec![11, 10]);
    assert!(edit.event.is_none());
    assert!(edit.on.is_none());
    assert!(!edit.made_row);
}

#[test]
fn undoing_an_event_keeps_a_row_it_did_not_make() {
    let mut edit = ClipEventEdit::adding(EventRow::Authored(7), "hit".into());
    edit.spawned(Some((7, false, 12)));
    assert_eq!(edit.despawned(), vec![12]);
    assert_eq!(edit.on, Some(7));
    edit.spawned(None);
    assert_eq!(edit.despawned(), Vec::<u64>::new());
}

#[test]
fn a_part_is_drawn_again_when_it_changed_or_lost_its_content() {
    assert!(!redraw_needed(true, &vec![true, true]));
    assert!(redraw_needed(false, &vec![true, true]));
    assert!(redraw_needed(true, &vec![true, false]));
    assert!(!redraw_needed(true, &vec![]));
}

#[test]
fn toolbar_signatures_compare_field_by_field() {
    let a = ToolbarSignature { path: Some("hero.graph".into()), entry: "idle".into(), dirty: false, states: 2 };
    let b = ToolbarSignature { path: Some("hero.graph".into()), entry: "idle".into(), dirty: false, states: 2 };
    let c = ToolbarSignature { path: Some("hero.graph".into()), entry: "idle".into(), dirty: true, states: 2 };
    let d = ToolbarSignature { path: None, entry: "idle".into(), dirty: false, states: 2 };
    assert!(a.same_as(&b));
    assert!(!a.same_as(&c));
    assert!(!a.same_as(&d));
}

#[test]
fn the_first_selected_state_node_is_edited() {
    assert_eq!(selected_state(&vec![None, Some("run".into()), Some("idle".into())]), Some("run".to_string()));
    assert_eq!(selected_state(&vec![None, None]), None);
    assert_eq!(loop_button_label(true), "Looping");
    assert_eq!(loop_button_label(false), "Once");
}
