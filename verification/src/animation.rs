//! The animation graph window and the clip timeline: which state and which
//! transition the canvas lights, which entity a graph previews on, the
//! window's captions, and the decisions of the timeline's operators.

use vstd::prelude::*;

use crate::text::{chars_of, concat, rsplit_once_char, rsplit_once_spec, str_eq, string_of};

verus! {

// ---------------------------------------------------------------------------
// What the canvas lights
// ---------------------------------------------------------------------------

/// A crossfade out of one state, as the canvas reads it.
pub struct AnimationGraphTransition {
    /// The state being faded out.
    pub from: String,
    /// Whether time remains on the crossfade.
    pub running: bool,
}

/// What a rig's graph is doing, as the canvas reads it.
pub struct AnimationGraphPlayback {
    /// The state driving the rig.
    pub state: String,
    pub transition: Option<AnimationGraphTransition>,
}

/// What the graph is doing, as the canvas draws it.
#[derive(Debug, PartialEq)]
pub struct GraphHighlight {
    /// The state driving the rig.
    pub state: String,
    /// The state being faded out, while a transition is still running.
    pub fading_from: Option<String>,
}

/// The state a highlight lights and the one it shows fading out.
pub open spec fn highlight_view(h: GraphHighlight) -> (Seq<char>, Option<Seq<char>>) {
    (h.state@, match h.fading_from {
        Some(f) => Some(f@),
        None => None,
    })
}

/// What a playback says the canvas should light: its state, and the state
/// it leaves while the crossfade still has time to run.
pub open spec fn highlight_spec(p: AnimationGraphPlayback) -> (Seq<char>, Option<Seq<char>>) {
    (p.state@, match p.transition {
        Some(t) => if t.running {
            Some(t.from@)
        } else {
            None
        },
        None => None,
    })
}

/// What a playback says the canvas should light.
pub fn highlight_of(playback: &AnimationGraphPlayback) -> (r: GraphHighlight)
    ensures
        highlight_view(r) == highlight_spec(*playback),
{
    let fading_from = match &playback.transition {
        Some(t) => if t.running {
            Some(t.from.clone())
        } else {
            None
        },
        None => None,
    };
    GraphHighlight { state: playback.state.clone(), fading_from }
}

/// The highlight of the first rig playing the open graph, or none at all.
pub fn running_highlight(playbacks: &Vec<(String, AnimationGraphPlayback)>, path: &str) -> (r: GraphHighlight)
    ensures
        (exists|i: int| 0 <= i < playbacks@.len() && (#[trigger] playbacks@[i]).0@ == path@) ==> exists|i: int|
            0 <= i < playbacks@.len() && (#[trigger] playbacks@[i]).0@ == path@ && (forall|k: int|
                0 <= k < i ==> playbacks@[k].0@ != path@) && highlight_view(r) == highlight_spec(
                playbacks@[i].1,
            ),
        (forall|i: int| 0 <= i < playbacks@.len() ==> (#[trigger] playbacks@[i]).0@ != path@) ==> highlight_view(r)
            == (Seq::<char>::empty(), None::<Seq<char>>),
{
    let mut i: usize = 0;
    while i < playbacks.len()
        invariant
            i <= playbacks.len(),
            forall|k: int| 0 <= k < i ==> playbacks@[k].0@ != path@,
        decreases playbacks.len() - i,
    {
        if str_eq(playbacks[i].0.as_str(), path) {
            return highlight_of(&playbacks[i].1);
        }
        i += 1;
    }
    GraphHighlight { state: String::new(), fading_from: None }
}

/// Whether a state's node is lit: it is the state driving the rig.
pub fn state_is_lit(h: &GraphHighlight, node_state: Option<&str>) -> (r: bool)
    ensures
        r == (node_state matches Some(s) && s@ == h.state@),
{
    match node_state {
        Some(s) => str_eq(s, h.state.as_str()),
        None => false,
    }
}

/// The characters of an optional string.
pub open spec fn opt_chars(o: Option<&str>) -> Option<Seq<char>> {
    match o {
        Some(s) => Some(s@),
        None => None,
    }
}

/// Whether the wire from `from` into `to` is lit: it leads into the state
/// driving the rig, out of the state fading out.
pub open spec fn lit_wire(state: Seq<char>, fading: Option<Seq<char>>, from: Option<Seq<char>>, to: Option<Seq<char>>) -> bool {
    to == Some(state) && fading is Some && fading == from
}

/// Whether a wire's label is lit: it is the transition running, from the
/// state fading out into the state driving the rig.
pub fn wire_is_lit(h: &GraphHighlight, from: Option<&str>, to: Option<&str>) -> (r: bool)
    ensures
        r == lit_wire(highlight_view(*h).0, highlight_view(*h).1, opt_chars(from), opt_chars(to)),
{
    let into = match to {
        Some(t) => str_eq(t, h.state.as_str()),
        None => false,
    };
    if !into {
        return false;
    }
    match (&h.fading_from, from) {
        (Some(f), Some(s)) => str_eq(s, f.as_str()),
        _ => false,
    }
}

/// While a crossfade runs, the canvas lights exactly one wire's worth of
/// states: the node of the state driving the rig, and the wire from the state
/// fading out; once the crossfade has run out, no wire is lit.
pub proof fn law_lit_wire_needs_running_crossfade(p: AnimationGraphPlayback, from: Seq<char>, to: Seq<char>)
    ensures
        ({
            let (state, fading) = highlight_spec(p);
            let wire_lit = lit_wire(state, fading, Some(from), Some(to));
            &&& wire_lit ==> (p.transition is Some && p.transition.unwrap().running
                && p.transition.unwrap().from@ == from && to == p.state@)
            &&& (p.transition is None || !p.transition.unwrap().running) ==> !wire_lit
        }),
{
}

// ---------------------------------------------------------------------------
// Which rig previews the graph
// ---------------------------------------------------------------------------

/// Whether the entity at `i` of `playing` plays the graph at `path`.
pub open spec fn plays_graph(playing: Seq<(u64, String)>, path: Seq<char>, i: int) -> bool {
    0 <= i < playing.len() && playing[i].1@ == path
}

/// Whether the entity at `i` is the first one playing the graph at `path`.
pub open spec fn first_playing(playing: Seq<(u64, String)>, path: Seq<char>, i: int) -> bool {
    plays_graph(playing, path, i) && forall|k: int| 0 <= k < i ==> !#[trigger] plays_graph(playing, path, k)
}

/// The entity the open graph previews on, from the entities playing a graph
/// and the path of the graph each plays: the selected entity when it plays
/// this graph, so a scene holding several rigs follows the one being worked
/// on; otherwise the first one playing it.
pub fn graph_preview_target(playing: &Vec<(u64, String)>, path: Option<&str>, selected: Option<u64>) -> (r: Option<u64>)
    ensures
        path is None ==> r is None,
        path matches Some(p) ==> {
            if selected matches Some(s) && exists|i: int| #[trigger] plays_graph(playing@, p@, i) && playing@[i].0 == s {
                r == selected
            } else if exists|i: int| #[trigger] plays_graph(playing@, p@, i) {
                exists|i: int| #[trigger] first_playing(playing@, p@, i) && r == Some(playing@[i].0)
            } else {
                r is None
            }
        },
{
    let p = match path {
        Some(p) => p,
        None => return None,
    };
    let mut first: Option<u64> = None;
    let ghost mut first_at: int = -1;
    let mut i: usize = 0;
    while i < playing.len()
        invariant
            i <= playing.len(),
            path == Some(p),
            selected matches Some(s) ==> forall|k: int| 0 <= k < i && #[trigger] plays_graph(playing@, p@, k) ==> playing@[k].0 != s,
            first is None <==> forall|k: int| 0 <= k < i ==> !#[trigger] plays_graph(playing@, p@, k),
            first is Some ==> 0 <= first_at < i && first_playing(playing@, p@, first_at) && first == Some(playing@[first_at].0),
        decreases playing.len() - i,
    {
        let entity = playing[i].0;
        if str_eq(playing[i].1.as_str(), p) {
            assert(plays_graph(playing@, p@, i as int));
            let is_selected = match selected {
                Some(s) => s == entity,
                None => false,
            };
            if is_selected {
                return selected;
            }
            if first.is_none() {
                first = Some(entity);
                proof {
                    first_at = i as int;
                }
            }
        } else {
            assert(!plays_graph(playing@, p@, i as int));
        }
        i += 1;
    }
    proof {
        if first is Some {
            assert(first_playing(playing@, p@, first_at));
        } else {
            assert forall|k: int| !plays_graph(playing@, p@, k) by {
                if 0 <= k < playing@.len() {
                    assert(!plays_graph(playing@, p@, k));
                }
            }
        }
    }
    first
}

// ---------------------------------------------------------------------------
// When the window's parts are drawn again
// ---------------------------------------------------------------------------

/// What the graph toolbar was last drawn for.
pub struct ToolbarSignature {
    pub path: Option<String>,
    pub entry: String,
    pub dirty: bool,
    pub states: usize,
}

/// The characters of an optional owned string.
pub open spec fn opt_string(o: Option<String>) -> Option<Seq<char>> {
    match o {
        Some(s) => Some(s@),
        None => None,
    }
}

impl ToolbarSignature {
    /// Whether two signatures describe the same toolbar.
    pub fn same_as(&self, other: &ToolbarSignature) -> (r: bool)
        ensures
            r == (opt_string(self.path) == opt_string(other.path) && self.entry@ == other.entry@ && self.dirty
                == other.dirty && self.states == other.states),
    {
        let same_path = match (&self.path, &other.path) {
            (Some(a), Some(b)) => str_eq(a.as_str(), b.as_str()),
            (None, None) => true,
            _ => false,
        };
        same_path && str_eq(self.entry.as_str(), other.entry.as_str()) && self.dirty == other.dirty
            && self.states == other.states
    }
}

/// Whether a part of the window is drawn again: unless what it was last drawn
/// for is unchanged and every copy of the part still holds what was drawn.
pub fn redraw_needed(unchanged: bool, filled: &Vec<bool>) -> (r: bool)
    ensures
        r == !(unchanged && forall|i: int| 0 <= i < filled@.len() ==> #[trigger] filled@[i]),
{
    if !unchanged {
        return true;
    }
    let mut i: usize = 0;
    while i < filled.len()
        invariant
            i <= filled.len(),
            forall|k: int| 0 <= k < i ==> #[trigger] filled@[k],
        decreases filled.len() - i,
    {
        if !filled[i] {
            return true;
        }
        i += 1;
    }
    false
}

// ---------------------------------------------------------------------------
// Captions
// ---------------------------------------------------------------------------

pub open spec fn unsaved_suffix() -> Seq<char> {
    seq![' ', '(', 'u', 'n', 's', 'a', 'v', 'e', 'd', ')']
}

pub open spec fn no_graph_caption() -> Seq<char> {
    seq!['N', 'o', ' ', 'g', 'r', 'a', 'p', 'h', ' ', 'o', 'p', 'e', 'n']
}

/// The title over the graph window: the open graph's path, marked while it
/// has unsaved changes.
pub fn toolbar_title(path: Option<&str>, dirty: bool) -> (r: String)
    ensures
        r@ == (match path {
            Some(p) => if dirty {
                p@ + unsaved_suffix()
            } else {
                p@
            },
            None => no_graph_caption(),
        }),
{
    match path {
        Some(p) => {
            let mut v = chars_of(p);
            if dirty {
                let mut suffix: Vec<char> = vec![' ', '(', 'u', 'n', 's', 'a', 'v', 'e', 'd', ')'];
                assert(suffix@ =~= unsaved_suffix());
                v.append(&mut suffix);
            }
            string_of(&v)
        },
        None => {
            let v: Vec<char> = vec!['N', 'o', ' ', 'g', 'r', 'a', 'p', 'h', ' ', 'o', 'p', 'e', 'n'];
            assert(v@ =~= no_graph_caption());
            string_of(&v)
        },
    }
}

pub open spec fn no_entry_caption() -> Seq<char> {
    seq!['n', 'o', ' ', 'e', 'n', 't', 'r', 'y', ' ', 's', 't', 'a', 't', 'e']
}

pub open spec fn entry_prefix() -> Seq<char> {
    seq!['e', 'n', 't', 'r', 'y', ':', ' ']
}

/// The caption naming the graph's entry state.
pub fn entry_caption(entry: &str) -> (r: String)
    ensures
        r@ == (if entry@.len() == 0 {
            no_entry_caption()
        } else {
            entry_prefix() + entry@
        }),
{
    let e = chars_of(entry);
    if e.len() == 0 {
        let v: Vec<char> = vec!['n', 'o', ' ', 'e', 'n', 't', 'r', 'y', ' ', 's', 't', 'a', 't', 'e'];
        assert(v@ =~= no_entry_caption());
        return string_of(&v);
    }
    let mut v: Vec<char> = vec!['e', 'n', 't', 'r', 'y', ':', ' '];
    assert(v@ =~= entry_prefix());
    let mut rest = e;
    v.append(&mut rest);
    string_of(&v)
}

/// What a row holding a library clip's events is called, and how the panel
/// names a library clip: `<file>#<clip>`, the spelling the runtime reads back
/// when two files hold the same clip name.
pub fn clip_event_row_name(file: &str, clip: &str) -> (r: String)
    ensures
        r@ == file@ + seq!['#'] + clip@,
{
    let mut v = chars_of(file);
    v.push('#');
    let mut c = chars_of(clip);
    v.append(&mut c);
    string_of(&v)
}

/// The clip a `<file>#<clip>` spec names: what follows its last `#`, or the
/// whole spec when there is none.
pub fn clip_of_spec(spec: &str) -> (r: String)
    ensures
        r@ == (match rsplit_once_spec(spec@, '#') {
            Some((_, clip)) => clip,
            None => spec@,
        }),
{
    match rsplit_once_char(spec, '#') {
        Some((_, clip)) => clip,
        None => string_of(&chars_of(spec)),
    }
}

/// The label of the button that plays a library clip on a state.
pub fn play_button_label(spec: &str) -> (r: String)
    ensures
        r@ == seq!['P', 'l', 'a', 'y', ' '] + (match rsplit_once_spec(spec@, '#') {
            Some((_, clip)) => clip,
            None => spec@,
        }),
{
    let clip = clip_of_spec(spec);
    let prefix: Vec<char> = vec!['P', 'l', 'a', 'y', ' '];
    let p = string_of(&prefix);
    concat(p.as_str(), clip.as_str())
}

/// The state the canvas selection names, if it names one: the state of the
/// first selected entity that is a state's node, each selected entity given
/// with the state its node stands for, if any.
pub fn selected_state(selected: &Vec<Option<String>>) -> (r: Option<String>)
    ensures
        match r {
            Some(n) => exists|i: int|
                0 <= i < selected@.len() && opt_string(#[trigger] selected@[i]) == Some(n@) && forall|k: int|
                    0 <= k < i ==> (#[trigger] selected@[k]) is None,
            None => forall|i: int| 0 <= i < selected@.len() ==> (#[trigger] selected@[i]) is None,
        },
{
    let mut i: usize = 0;
    while i < selected.len()
        invariant
            i <= selected.len(),
            forall|k: int| 0 <= k < i ==> (#[trigger] selected@[k]) is None,
        decreases selected.len() - i,
    {
        if let Some(n) = &selected[i] {
            let r = n.clone();
            assert(opt_string(selected@[i as int]) == Some(r@));
            return Some(r);
        }
        i += 1;
    }
    None
}

/// The label of the button that switches a state between looping and
/// playing once.
pub fn loop_button_label(looped: bool) -> (r: String)
    ensures
        r@ == (if looped {
            "Looping"@
        } else {
            "Once"@
        }),
{
    if looped {
        "Looping".to_owned()
    } else {
        "Once".to_owned()
    }
}

/// What committing a state's rename field renames it to: nothing for an empty
/// field or an unchanged name, so no undo entry is left for either.
pub fn rename_on_commit(current: &str, typed: &str) -> (r: Option<String>)
    ensures
        (typed@.len() == 0 || typed@ == current@) ==> r is None,
        !(typed@.len() == 0 || typed@ == current@) ==> (match r {
            Some(n) => n@ == typed@,
            None => false,
        }),
{
    let t = chars_of(typed);
    if t.len() == 0 || str_eq(typed, current) {
        None
    } else {
        Some(string_of(&t))
    }
}

// ---------------------------------------------------------------------------
// The clip timeline
// ---------------------------------------------------------------------------

/// How a clip's playhead travelled between two readings.
#[derive(Debug, Clone, Copy, PartialEq, Eq, Structural)]
pub enum ClipPass {
    /// On, from the last reading to this one.
    Forward,
    /// On past the end of the clip and round from its start.
    ForwardWrapped,
    /// Back, as a scrub drags it.
    Backward,
}

/// How the playhead travelled, from whether the new reading lies behind the
/// last one and whether the clip plays: playback runs forward, so a reading
/// behind the last one wrapped, while a parked clip was scrubbed back.
pub fn pass_of(reads_back: bool, playing: bool) -> (r: ClipPass)
    ensures
        r == (if !reads_back {
            ClipPass::Forward
        } else if playing {
            ClipPass::ForwardWrapped
        } else {
            ClipPass::Backward
        }),
{
    match (reads_back, playing) {
        (true, true) => ClipPass::ForwardWrapped,
        (true, false) => ClipPass::Backward,
        (false, _) => ClipPass::Forward,
    }
}

/// A switch an operator sets: the value asked for, or the current one flipped
/// when none was asked for.
pub fn switch_after(requested: Option<bool>, current: bool) -> (r: bool)
    ensures
        r == (match requested {
            Some(b) => b,
            None => !current,
        }),
{
    match requested {
        Some(b) => b,
        None => !current,
    }
}

pub open spec fn default_event_name() -> Seq<char> {
    seq!['E', 'v', 'e', 'n', 't']
}

/// The name a new clip event is given: the one asked for, unless it is
/// missing or empty.
pub fn clip_event_name(requested: Option<&str>) -> (r: String)
    ensures
        r@ == (match requested {
            Some(n) => if n@.len() > 0 {
                n@
            } else {
                default_event_name()
            },
            None => default_event_name(),
        }),
{
    if let Some(n) = requested {
        let v = chars_of(n);
        if v.len() > 0 {
            return string_of(&v);
        }
    }
    let d: Vec<char> = vec!['E', 'v', 'e', 'n', 't'];
    assert(d@ =~= default_event_name());
    string_of(&d)
}

/// What a clip event hangs under: a library clip is no entity, so its events
/// hang under a child of the entity playing it, named for the clip.
pub enum EventRow {
    /// An authored clip, which holds its own events.
    Authored(u64),
    /// A row named for a library clip, under the entity playing it.
    Named { owner: u64, file: String, clip: String },
}

/// Where an event placed now would go: the clip picked in the timeline; else
/// the library clip up in it, a `<file>#<clip>` spec, under the entity
/// previewing it; and nowhere while no entity previews that clip.
pub fn event_row(selected: Option<u64>, imported: Option<&str>, preview_owner: Option<u64>) -> (r: Option<EventRow>)
    ensures
        match r {
            Some(EventRow::Authored(c)) => selected == Some(c),
            Some(EventRow::Named { owner, file, clip }) => selected is None && preview_owner == Some(owner)
                && (imported matches Some(spec) && rsplit_once_spec(spec@, '#') == Some((file@, clip@))),
            None => selected is None && (imported matches Some(spec) ==> (rsplit_once_spec(spec@, '#') is None
                || preview_owner is None)),
        },
{
    if let Some(c) = selected {
        return Some(EventRow::Authored(c));
    }
    let spec = match imported {
        Some(s) => s,
        None => return None,
    };
    let (file, clip) = match rsplit_once_char(spec, '#') {
        Some(pair) => pair,
        None => return None,
    };
    match preview_owner {
        Some(owner) => Some(EventRow::Named { owner, file, clip }),
        None => None,
    }
}

/// One child of an entity, as the lookups of the timeline read it.
pub struct ChildEntry {
    pub entity: u64,
    /// Whether it is an authored clip.
    pub is_clip: bool,
    /// Whether it holds a place in the scene (a `Transform`).
    pub placed: bool,
    /// Its name, where it has one.
    pub name: Option<String>,
}

/// Whether the child at `i` is a clip that `wanted` picks: any clip when no
/// name is asked for, else the clip of that name.
pub open spec fn picks_clip(children: Seq<ChildEntry>, wanted: Option<Seq<char>>, i: int) -> bool {
    0 <= i < children.len() && children[i].is_clip && match wanted {
        None => true,
        Some(w) => children[i].name matches Some(n) && n@ == w,
    }
}

/// The name asked for, where one was asked for and it is not empty.
pub open spec fn wanted_name(name: Option<&str>) -> Option<Seq<char>> {
    match name {
        Some(n) => if n@.len() > 0 {
            Some(n@)
        } else {
            None
        },
        None => None,
    }
}

/// The clip to put up in the timeline, among an entity's children: the first
/// clip with the name asked for, or the first clip of all when no name (or an
/// empty one) is asked for.
pub fn clip_select(children: &Vec<ChildEntry>, name: Option<&str>) -> (r: Option<u64>)
    ensures
        match r {
            Some(c) => exists|i: int| #[trigger] picks_clip(children@, wanted_name(name), i) && children@[i].entity == c
                && forall|k: int| 0 <= k < i ==> !#[trigger] picks_clip(children@, wanted_name(name), k),
            None => forall|i: int| !#[trigger] picks_clip(children@, wanted_name(name), i),
        },
{
    let wanted: Option<&str> = match name {
        Some(n) => if chars_of(n).len() > 0 {
            Some(n)
        } else {
            None
        },
        None => None,
    };
    assert(opt_chars(wanted) == wanted_name(name));
    let mut i: usize = 0;
    while i < children.len()
        invariant
            i <= children.len(),
            opt_chars(wanted) == wanted_name(name),
            forall|k: int| 0 <= k < i ==> !#[trigger] picks_clip(children@, wanted_name(name), k),
        decreases children.len() - i,
    {
        let child = &children[i];
        let hit = child.is_clip && match wanted {
            None => true,
            Some(w) => match &child.name {
                Some(n) => str_eq(n.as_str(), w),
                None => false,
            },
        };
        if hit {
            assert(picks_clip(children@, wanted_name(name), i as int));
            return Some(child.entity);
        }
        assert(!picks_clip(children@, wanted_name(name), i as int));
        i += 1;
    }
    assert forall|k: int| !#[trigger] picks_clip(children@, wanted_name(name), k) by {
        if 0 <= k < children@.len() {
            assert(!picks_clip(children@, wanted_name(name), k));
        }
    }
    None
}

/// Whether the child at `i` carries a library clip's events: it holds no place
/// in the scene, unlike a bone or a prefab part, and its name stands for the
/// clip (`stands[i]`, as the runtime reads names).
pub open spec fn carries_events(children: Seq<ChildEntry>, stands: Seq<bool>, i: int) -> bool {
    0 <= i < children.len() && i < stands.len() && !children[i].placed && stands[i]
}

/// The child of an entity that carries a library clip's events, from its
/// children and whether each one's name stands for the clip: the first one
/// that holds no place in the scene and stands for the clip.
pub fn clip_event_row(children: &Vec<ChildEntry>, stands: &Vec<bool>) -> (r: Option<u64>)
    requires
        stands.len() == children.len(),
    ensures
        match r {
            Some(c) => exists|i: int| #[trigger] carries_events(children@, stands@, i) && children@[i].entity == c
                && forall|k: int| 0 <= k < i ==> !#[trigger] carries_events(children@, stands@, k),
            None => forall|i: int| !#[trigger] carries_events(children@, stands@, i),
        },
{
    let mut i: usize = 0;
    while i < children.len()
        invariant
            i <= children.len(),
            stands.len() == children.len(),
            forall|k: int| 0 <= k < i ==> !#[trigger] carries_events(children@, stands@, k),
        decreases children.len() - i,
    {
        if !children[i].placed && stands[i] {
            assert(carries_events(children@, stands@, i as int));
            return Some(children[i].entity);
        }
        assert(!carries_events(children@, stands@, i as int));
        i += 1;
    }
    assert forall|k: int| !#[trigger] carries_events(children@, stands@, k) by {
        if 0 <= k < children@.len() {
            assert(!carries_events(children@, stands@, k));
        }
    }
    None
}

// ---------------------------------------------------------------------------
// Adding and removing one clip event, as a step undo can take back
// ---------------------------------------------------------------------------

/// Where an event is to hang, once the world has been looked at.
#[derive(Debug, Clone, Copy, PartialEq, Eq, Structural)]
pub enum RowOpening {
    /// The clip or the entity playing it is gone: the event goes nowhere.
    Gone,
    /// Under this entity, which is already there.
    Found(u64),
    /// Under a row named for the clip, made now.
    Make,
}

/// Where an event goes, from its row, whether the entity the row names (an
/// authored clip, or the entity playing a library clip) is still there, and
/// the child of that entity already carrying the clip's events, if any.
pub fn open_row_choice(row: &EventRow, alive: bool, existing: Option<u64>) -> (r: RowOpening)
    ensures
        r == (match *row {
            EventRow::Authored(c) => if alive {
                RowOpening::Found(c)
            } else {
                RowOpening::Gone
            },
            EventRow::Named { .. } => if !alive {
                RowOpening::Gone
            } else {
                match existing {
                    Some(e) => RowOpening::Found(e),
                    None => RowOpening::Make,
                }
            },
        }),
{
    match row {
        EventRow::Authored(c) => if alive {
            RowOpening::Found(*c)
        } else {
            RowOpening::Gone
        },
        EventRow::Named { .. } => if !alive {
            RowOpening::Gone
        } else {
            match existing {
                Some(e) => RowOpening::Found(e),
                None => RowOpening::Make,
            }
        },
    }
}

/// What a step of an event edit does to the world.
#[derive(Debug, Clone, Copy, PartialEq, Eq, Structural)]
pub enum EditStep {
    /// Hang the event under its row, opening the row first.
    Spawn,
    /// Take the event away, and the row with it when the edit made it.
    Despawn,
}

/// Adding or removing one clip event, as a step undo can take back. The event
/// is respawned rather than restored by id: an id handed back is free to be
/// someone else's by the time undo reaches for it.
pub struct ClipEventEdit {
    pub row: EventRow,
    /// The row the event hangs under, once it exists.
    pub on: Option<u64>,
    /// Whether this edit made that row, so undo takes it back away.
    pub made_row: bool,
    /// The live event, once one exists. Rewritten on every undo and redo.
    pub event: Option<u64>,
    pub name: String,
    /// Whether executing adds the event or takes it away.
    pub adding: bool,
}

/// The edit after a spawn step: `placed` is the row the event went under,
/// whether the step made that row, and the event, or nothing when the row
/// could not be opened.
pub open spec fn spawned_spec(e: ClipEventEdit, placed: Option<(u64, bool, u64)>) -> ClipEventEdit {
    match placed {
        Some((row, made, event)) => ClipEventEdit { on: Some(row), made_row: made, event: Some(event), ..e },
        None => ClipEventEdit { made_row: false, ..e },
    }
}

/// The edit after a despawn step.
pub open spec fn despawned_spec(e: ClipEventEdit) -> ClipEventEdit {
    if e.made_row {
        ClipEventEdit { event: None, made_row: false, on: None, ..e }
    } else {
        ClipEventEdit { event: None, ..e }
    }
}

/// What a despawn step takes out of the world: the live event, then the row
/// when this edit made it.
pub open spec fn despawn_removes(e: ClipEventEdit) -> Seq<u64> {
    (match e.event {
        Some(ev) => seq![ev],
        None => Seq::empty(),
    }) + (if e.made_row && e.on is Some {
        seq![e.on.unwrap()]
    } else {
        Seq::empty()
    })
}

impl ClipEventEdit {
    /// An edit that adds an event named `name` under `row`.
    pub fn adding(row: EventRow, name: String) -> (r: Self)
        ensures
            r.row == row,
            r.name == name,
            r.on is None,
            !r.made_row,
            r.event is None,
            r.adding,
    {
        ClipEventEdit { row, on: None, made_row: false, event: None, name, adding: true }
    }

    /// What executing the edit (`undo` false) or taking it back does.
    pub fn step(&self, undo: bool) -> (r: EditStep)
        ensures
            r == (if self.adding != undo {
                EditStep::Spawn
            } else {
                EditStep::Despawn
            }),
    {
        if self.adding != undo {
            EditStep::Spawn
        } else {
            EditStep::Despawn
        }
    }

    /// Records a spawn step.
    pub fn spawned(&mut self, placed: Option<(u64, bool, u64)>)
        ensures
            *final(self) == spawned_spec(*old(self), placed),
    {
        match placed {
            Some((row, made, event)) => {
                self.on = Some(row);
                self.made_row = made;
                self.event = Some(event);
            },
            None => {
                self.made_row = false;
            },
        }
    }

    /// Records a despawn step, and says what it takes out of the world.
    pub fn despawned(&mut self) -> (removed: Vec<u64>)
        ensures
            *final(self) == despawned_spec(*old(self)),
            removed@ == despawn_removes(*old(self)),
    {
        let mut removed: Vec<u64> = Vec::new();
        if let Some(ev) = self.event {
            removed.push(ev);
        }
        self.event = None;
        if !self.made_row {
            return removed;
        }
        self.made_row = false;
        if let Some(row) = self.on {
            removed.push(row);
        }
        self.on = None;
        removed
    }
}

/// Taking back a spawn step removes exactly what it put in the world: the
/// event it hung, and the row only when the step made it; the edit then holds
/// no live event and no row of its own making.
pub proof fn law_despawn_undoes_spawn(e: ClipEventEdit, row: u64, made: bool, event: u64)
    ensures
        despawn_removes(spawned_spec(e, Some((row, made, event)))) == (if made {
            seq![event, row]
        } else {
            seq![event]
        }),
        despawned_spec(spawned_spec(e, Some((row, made, event)))).event is None,
        !despawned_spec(spawned_spec(e, Some((row, made, event)))).made_row,
{
    let s = spawned_spec(e, Some((row, made, event)));
    if made {
        assert(despawn_removes(s) =~= seq![event, row]);
    } else {
        assert(despawn_removes(s) =~= seq![event]);
    }
}

} // verus!
