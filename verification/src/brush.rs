//! Brush editing: entering and leaving the edit modes, picking faces,
//! vertices and edges, the edges a brush's faces share, fan triangulation,
//! what the Delete key takes away, and the phases of drawing a new brush.
//!
//! Geometry itself is floating point and stays with the renderer; what is
//! here works on indices into a brush's vertex and face lists.

use vstd::prelude::*;

use crate::history::{record_spec, UndoHistory};

verus! {

// ---------------------------------------------------------------------------
// Edit modes
// ---------------------------------------------------------------------------

/// The sub-mode of brush editing.
#[derive(PartialEq, Eq, Structural, Clone, Copy, Debug)]
pub enum BrushEditMode {
    Face,
    Vertex,
    Edge,
    Clip,
}

/// Edit mode: Object (default) or brush editing.
#[derive(PartialEq, Eq, Structural, Clone, Copy, Debug)]
pub enum EditMode {
    Object,
    BrushEdit(BrushEditMode),
}

/// Tracks selected sub-elements within brush edit mode.
pub struct BrushSelection {
    /// The brush being edited.
    pub entity: Option<u64>,
    pub faces: Vec<usize>,
    pub vertices: Vec<usize>,
    /// Selected edges as normalized (min, max) vertex index pairs.
    pub edges: Vec<(usize, usize)>,
}

/// The keys pressed this frame that the edit modes answer to.
#[derive(PartialEq, Eq, Structural, Clone, Copy, Debug)]
pub struct EditModeKeys {
    pub backquote: bool,
    pub digit1: bool,
    pub digit2: bool,
    pub digit3: bool,
    pub digit4: bool,
}

impl BrushSelection {
    /// Nothing selected, no brush being edited.
    pub fn new() -> (r: Self)
        ensures
            r.entity is None,
            r.cleared(),
    {
        BrushSelection { entity: None, faces: Vec::new(), vertices: Vec::new(), edges: Vec::new() }
    }

    /// No face, vertex or edge is selected.
    pub open spec fn cleared(&self) -> bool {
        self.faces@.len() == 0 && self.vertices@.len() == 0 && self.edges@.len() == 0
    }

    fn clear_elements(&mut self)
        ensures
            final(self).cleared(),
            final(self).entity == old(self).entity,
    {
        self.faces.clear();
        self.vertices.clear();
        self.edges.clear();
    }
}

/// The sub-mode a digit key asks for, the lowest digit winning.
pub open spec fn digit_mode(keys: EditModeKeys) -> Option<BrushEditMode> {
    if keys.digit1 {
        Some(BrushEditMode::Vertex)
    } else if keys.digit2 {
        Some(BrushEditMode::Edge)
    } else if keys.digit3 {
        Some(BrushEditMode::Face)
    } else if keys.digit4 {
        Some(BrushEditMode::Clip)
    } else {
        None
    }
}

/// How the edit modes answer a frame's keys.
///
/// Backtick enters brush editing, in face mode, when the primary selection is
/// a brush, and leaves it from any sub-mode. Inside brush editing, 1 to 4
/// pick the vertex, edge, face and clip sub-modes. Changing mode clears the
/// picked faces, vertices and edges; and brush editing ends as soon as the
/// brush is no longer the primary selection. `blocked` is a text field or a
/// modal transform holding the keyboard, which leaves everything as it is.
pub open spec fn edit_mode_after(
    mode: EditMode,
    entity: Option<u64>,
    keys: EditModeKeys,
    blocked: bool,
    primary: Option<u64>,
    primary_is_brush: bool,
) -> (EditMode, Option<u64>, bool) {
    // The third component says whether the picked elements are cleared.
    if blocked {
        (mode, entity, false)
    } else if keys.backquote {
        match mode {
            EditMode::Object => if primary is Some && primary_is_brush {
                (EditMode::BrushEdit(BrushEditMode::Face), primary, true)
            } else {
                (mode, entity, false)
            },
            EditMode::BrushEdit(_) => (EditMode::Object, None, true),
        }
    } else {
        let (m1, cleared1) = match mode {
            EditMode::BrushEdit(_) => match digit_mode(keys) {
                Some(sub) => (EditMode::BrushEdit(sub), true),
                None => (mode, false),
            },
            EditMode::Object => (mode, false),
        };
        match m1 {
            EditMode::BrushEdit(_) => match entity {
                Some(b) => if primary != Some(b) {
                    (EditMode::Object, None, true)
                } else {
                    (m1, entity, cleared1)
                },
                None => (m1, entity, cleared1),
            },
            EditMode::Object => (m1, entity, cleared1),
        }
    }
}

/// Answer a frame's keys: switch edit mode and reset the brush selection as
/// [`edit_mode_after`] says.
pub fn handle_edit_mode_keys(
    mode: &mut EditMode,
    selection: &mut BrushSelection,
    keys: EditModeKeys,
    blocked: bool,
    primary: Option<u64>,
    primary_is_brush: bool,
)
    ensures
        ({
            let (m, e, cleared) = edit_mode_after(
                *old(mode),
                old(selection).entity,
                keys,
                blocked,
                primary,
                primary_is_brush,
            );
            &&& *final(mode) == m
            &&& final(selection).entity == e
            &&& cleared ==> final(selection).cleared()
            &&& !cleared ==> final(selection).faces@ == old(selection).faces@
                && final(selection).vertices@ == old(selection).vertices@
                && final(selection).edges@ == old(selection).edges@
        }),
{
    if blocked {
        return;
    }
    if keys.backquote {
        match *mode {
            EditMode::Object => {
                if let Some(p) = primary {
                    if primary_is_brush {
                        *mode = EditMode::BrushEdit(BrushEditMode::Face);
                        selection.entity = Some(p);
                        selection.clear_elements();
                    }
                }
            },
            EditMode::BrushEdit(_) => {
                *mode = EditMode::Object;
                selection.entity = None;
                selection.clear_elements();
            },
        }
        return;
    }
    if let EditMode::BrushEdit(_) = *mode {
        let sub = if keys.digit1 {
            Some(BrushEditMode::Vertex)
        } else if keys.digit2 {
            Some(BrushEditMode::Edge)
        } else if keys.digit3 {
            Some(BrushEditMode::Face)
        } else if keys.digit4 {
            Some(BrushEditMode::Clip)
        } else {
            None
        };
        if let Some(s) = sub {
            *mode = EditMode::BrushEdit(s);
            selection.clear_elements();
        }
    }
    if let EditMode::BrushEdit(_) = *mode {
        if let Some(b) = selection.entity {
            let still = match primary {
                Some(p) => p == b,
                None => false,
            };
            if !still {
                *mode = EditMode::Object;
                selection.entity = None;
                selection.clear_elements();
            }
        }
    }
}

/// The edit mode and the edited brush agree: brush editing always has a
/// brush, object mode never has one.
pub open spec fn mode_agrees(mode: EditMode, entity: Option<u64>) -> bool {
    (mode == EditMode::Object) == (entity is None)
}

/// Every frame keeps the edit mode and the edited brush in agreement, and
/// brush editing only ever edits the brush that is the primary selection.
pub proof fn law_edit_mode_agrees(
    mode: EditMode,
    entity: Option<u64>,
    keys: EditModeKeys,
    blocked: bool,
    primary: Option<u64>,
    primary_is_brush: bool,
)
    requires
        mode_agrees(mode, entity),
        mode != EditMode::Object ==> entity == primary,
    ensures
        ({
            let (m, e, _) = edit_mode_after(mode, entity, keys, blocked, primary, primary_is_brush);
            &&& mode_agrees(m, e)
            &&& (!blocked && m != EditMode::Object) ==> e == primary
        }),
{
}

/// In brush editing, with the edited brush `b` still the primary selection
/// and nothing holding the keyboard, key 1 alone switches to vertex mode, 2
/// alone to edge mode, 3 alone to face mode and 4 alone to clip mode, from
/// any sub-mode, keeping the brush and clearing what was picked.
pub proof fn law_digit_keys(sub: BrushEditMode, b: u64, primary_is_brush: bool)
    ensures
        ({
            let none = EditModeKeys { backquote: false, digit1: false, digit2: false, digit3: false, digit4: false };
            let mode = EditMode::BrushEdit(sub);
            &&& edit_mode_after(mode, Some(b), EditModeKeys { digit1: true, ..none }, false, Some(b), primary_is_brush)
                == (EditMode::BrushEdit(BrushEditMode::Vertex), Some(b), true)
            &&& edit_mode_after(mode, Some(b), EditModeKeys { digit2: true, ..none }, false, Some(b), primary_is_brush)
                == (EditMode::BrushEdit(BrushEditMode::Edge), Some(b), true)
            &&& edit_mode_after(mode, Some(b), EditModeKeys { digit3: true, ..none }, false, Some(b), primary_is_brush)
                == (EditMode::BrushEdit(BrushEditMode::Face), Some(b), true)
            &&& edit_mode_after(mode, Some(b), EditModeKeys { digit4: true, ..none }, false, Some(b), primary_is_brush)
                == (EditMode::BrushEdit(BrushEditMode::Clip), Some(b), true)
            &&& edit_mode_after(mode, Some(b), none, false, Some(b), primary_is_brush) == (mode, Some(b), false)
        }),
{
}

/// Backtick twice, with a brush selected in object mode, comes back to object
/// mode with nothing edited and nothing picked.
pub proof fn law_backquote_twice(entity: Option<u64>, primary: u64, keys: EditModeKeys)
    requires
        keys.backquote,
    ensures
        ({
            let (m1, e1, c1) = edit_mode_after(
                EditMode::Object,
                entity,
                keys,
                false,
                Some(primary),
                true,
            );
            let (m2, e2, c2) = edit_mode_after(m1, e1, keys, false, Some(primary), true);
            &&& m1 == EditMode::BrushEdit(BrushEditMode::Face)
            &&& e1 == Some(primary)
            &&& c1
            &&& m2 == EditMode::Object
            &&& e2 is None
            &&& c2
        }),
{
}

} // verus!

verus! {

// ---------------------------------------------------------------------------
// Picking faces, vertices and edges
// ---------------------------------------------------------------------------

/// The first position of `x` in `s`, if it is there.
pub open spec fn first_index<T>(s: Seq<T>, x: T) -> Option<int> {
    if s.contains(x) {
        Some(choose|i: int| 0 <= i < s.len() && s[i] == x && forall|k: int| 0 <= k < i ==> s[k] != x)
    } else {
        None
    }
}

/// What a click leaves of a pick list: with Ctrl, the picked element is taken
/// out (its first occurrence) when it is there and added at the end when it is
/// not; without Ctrl, it becomes the only element, and a click on nothing
/// clears the list. A Ctrl-click on nothing changes nothing.
pub open spec fn picked<T>(list: Seq<T>, pick: Option<T>, ctrl: bool) -> Seq<T> {
    match pick {
        Some(x) => if ctrl {
            match first_index(list, x) {
                Some(i) => list.remove(i),
                None => list.push(x),
            }
        } else {
            seq![x]
        },
        None => if ctrl {
            list
        } else {
            Seq::empty()
        },
    }
}

proof fn lemma_first_index<T>(s: Seq<T>, x: T, i: int)
    requires
        0 <= i < s.len(),
        s[i] == x,
        forall|k: int| 0 <= k < i ==> s[k] != x,
    ensures
        first_index(s, x) == Some(i),
{
    assert(s.contains(x));
    let j = choose|j: int| 0 <= j < s.len() && s[j] == x && forall|k: int| 0 <= k < j ==> s[k] != x;
    assert(j == i) by {
        if j < i {
            assert(s[j] != x);
        }
        if i < j {
            assert(s[i] != x);
        }
    }
}

/// Apply a click to a list of picked face or vertex indices.
pub fn pick_index(list: &mut Vec<usize>, pick: Option<usize>, ctrl: bool)
    ensures
        final(list)@ == picked(old(list)@, pick, ctrl),
{
    match pick {
        Some(x) => {
            if ctrl {
                let mut i: usize = 0;
                while i < list.len()
                    invariant
                        i <= list.len(),
                        list@ == old(list)@,
                        pick == Some(x),
                        ctrl,
                        forall|k: int| 0 <= k < i ==> list@[k] != x,
                    decreases list.len() - i,
                {
                    if list[i] == x {
                        proof {
                            lemma_first_index(list@, x, i as int);
                        }
                        let ghost before = list@;
                        list.remove(i);
                        assert(list@ == before.remove(i as int));
                        assert(picked(before, pick, ctrl) == before.remove(i as int));
                        return;
                    }
                    i += 1;
                }
                list.push(x);
            } else {
                list.clear();
                list.push(x);
                assert(list@ =~= seq![x]);
            }
        },
        None => {
            if !ctrl {
                list.clear();
            }
        },
    }
}

/// Apply a click to a list of picked edges.
pub fn pick_edge(list: &mut Vec<(usize, usize)>, pick: Option<(usize, usize)>, ctrl: bool)
    ensures
        final(list)@ == picked(old(list)@, pick, ctrl),
{
    match pick {
        Some(x) => {
            if ctrl {
                let mut i: usize = 0;
                while i < list.len()
                    invariant
                        i <= list.len(),
                        list@ == old(list)@,
                        pick == Some(x),
                        ctrl,
                        forall|k: int| 0 <= k < i ==> list@[k] != x,
                    decreases list.len() - i,
                {
                    if list[i].0 == x.0 && list[i].1 == x.1 {
                        proof {
                            lemma_first_index(list@, x, i as int);
                        }
                        let ghost before = list@;
                        list.remove(i);
                        assert(list@ == before.remove(i as int));
                        assert(picked(before, pick, ctrl) == before.remove(i as int));
                        return;
                    }
                    i += 1;
                }
                list.push(x);
            } else {
                list.clear();
                list.push(x);
                assert(list@ =~= seq![x]);
            }
        },
        None => {
            if !ctrl {
                list.clear();
            }
        },
    }
}

/// A pick list never holds an element twice, and Ctrl-clicking the same
/// element twice leaves the same elements picked as before.
pub proof fn law_pick_toggle<T>(list: Seq<T>, x: T)
    requires
        list.no_duplicates(),
    ensures
        picked(list, Some(x), true).no_duplicates(),
        picked(list, Some(x), false).no_duplicates(),
        picked(list, None, false).no_duplicates(),
        picked(list, Some(x), true).contains(x) == !list.contains(x),
        forall|y: T|
            #[trigger] picked(picked(list, Some(x), true), Some(x), true).contains(y)
                == list.contains(y),
{
    let once = picked(list, Some(x), true);
    if list.contains(x) {
        let i = choose|i: int| 0 <= i < list.len() && list[i] == x && forall|k: int| 0 <= k < i ==> list[k] != x;
        assert(first_index(list, x) == Some(i));
        assert(once == list.remove(i));
        assert(!once.contains(x)) by {
            if once.contains(x) {
                let k = choose|k: int| 0 <= k < once.len() && once[k] == x;
                if k < i {
                    assert(once[k] == list[k]);
                } else {
                    assert(once[k] == list[k + 1]);
                }
            }
        }
        assert(first_index(once, x) is None);
        let twice = once.push(x);
        assert forall|y: T| #[trigger] twice.contains(y) == list.contains(y) by {
            if list.contains(y) {
                let k = choose|k: int| 0 <= k < list.len() && list[k] == y;
                if k < i {
                    assert(twice[k] == y);
                } else if k == i {
                    assert(twice[once.len() as int] == y);
                } else {
                    assert(twice[k - 1] == y);
                }
            }
            if twice.contains(y) {
                let k = choose|k: int| 0 <= k < twice.len() && twice[k] == y;
                if k == once.len() {
                    assert(list[i] == y);
                } else if k < i {
                    assert(list[k] == y);
                } else {
                    assert(list[k + 1] == y);
                }
            }
        }
        assert(once.no_duplicates()) by {
            assert forall|a: int, b: int| 0 <= a < once.len() && 0 <= b < once.len() && a != b implies once[a]
                != once[b] by {
                let a0 = if a < i { a } else { a + 1 };
                let b0 = if b < i { b } else { b + 1 };
                assert(once[a] == list[a0] && once[b] == list[b0]);
            }
        }
    } else {
        assert(once == list.push(x));
        assert(once.contains(x)) by {
            assert(once[list.len() as int] == x);
        }
        let i = list.len() as int;
        assert(forall|k: int| 0 <= k < i ==> once[k] != x);
        lemma_first_index(once, x, i);
        let twice = once.remove(i);
        assert(twice =~= list);
        assert(once.no_duplicates()) by {
            assert forall|a: int, b: int| 0 <= a < once.len() && 0 <= b < once.len() && a != b implies once[a]
                != once[b] by {
                if a < i && b < i {
                } else if a == i {
                    assert(once[b] == list[b]);
                } else {
                    assert(once[a] == list[a]);
                }
            }
        }
    }
    assert(seq![x].no_duplicates());
    assert(Seq::<T>::empty().no_duplicates());
}

} // verus!

verus! {

// ---------------------------------------------------------------------------
// Edges and triangles of a brush's faces
// ---------------------------------------------------------------------------

/// An edge with its smaller vertex index first.
pub open spec fn normalized_edge(a: usize, b: usize) -> (usize, usize) {
    if a <= b {
        (a, b)
    } else {
        (b, a)
    }
}

/// The edges around one face, in order, each normalized; a face of fewer than
/// two vertices has none.
pub open spec fn face_edges(poly: Seq<usize>) -> Seq<(usize, usize)> {
    if poly.len() < 2 {
        Seq::empty()
    } else {
        Seq::new(poly.len(), |i: int| normalized_edge(poly[i], poly[(i + 1) % (poly.len() as int)]))
    }
}

/// The edges of every face, face after face.
pub open spec fn all_face_edges(polys: Seq<Seq<usize>>) -> Seq<(usize, usize)>
    decreases polys.len(),
{
    if polys.len() == 0 {
        Seq::empty()
    } else {
        all_face_edges(polys.drop_last()) + face_edges(polys.last())
    }
}

/// `s` with every element after its first occurrence dropped.
pub open spec fn dedup<T>(s: Seq<T>) -> Seq<T>
    decreases s.len(),
{
    if s.len() == 0 {
        Seq::empty()
    } else {
        let d = dedup(s.drop_last());
        if d.contains(s.last()) {
            d
        } else {
            d.push(s.last())
        }
    }
}

pub proof fn lemma_dedup_members<T>(s: Seq<T>)
    ensures
        dedup(s).no_duplicates(),
        forall|x: T| #[trigger] dedup(s).contains(x) <==> s.contains(x),
    decreases s.len(),
{
    if s.len() > 0 {
        let d0 = s.drop_last();
        lemma_dedup_members(d0);
        let d = dedup(d0);
        assert forall|x: T| #[trigger] dedup(s).contains(x) <==> s.contains(x) by {
            if s.contains(x) {
                let k = choose|k: int| 0 <= k < s.len() && s[k] == x;
                if k < s.len() - 1 {
                    assert(d0[k] == x);
                    assert(d0.contains(x));
                    assert(d.contains(x));
                    let j = choose|j: int| 0 <= j < d.len() && d[j] == x;
                    if !d.contains(s.last()) {
                        assert(d.push(s.last())[j] == x);
                    }
                } else if !d.contains(s.last()) {
                    assert(d.push(s.last())[d.len() as int] == x);
                }
            }
            if dedup(s).contains(x) {
                let j = choose|j: int| 0 <= j < dedup(s).len() && dedup(s)[j] == x;
                if j < d.len() {
                    if !d.contains(s.last()) {
                        assert(d.push(s.last())[j] == d[j]);
                    }
                    assert(d.contains(x));
                    assert(d0.contains(x));
                    let k = choose|k: int| 0 <= k < d0.len() && d0[k] == x;
                    assert(s[k] == x);
                } else {
                    assert(s[s.len() - 1] == x);
                }
            }
        }
        if !d.contains(s.last()) {
            let m = d.push(s.last());
            assert forall|a: int, b: int| 0 <= a < m.len() && 0 <= b < m.len() && a != b implies m[a]
                != m[b] by {
                if a == d.len() {
                    assert(m[b] == d[b]);
                    assert(d.contains(d[b]));
                } else if b == d.len() {
                    assert(m[a] == d[a]);
                    assert(d.contains(d[a]));
                } else {
                    assert(m[a] == d[a] && m[b] == d[b]);
                }
            }
        }
    }
}

/// The distinct edges of a brush's faces, each once, in the order the faces
/// first reach them.
pub fn unique_edges(face_polygons: &Vec<Vec<usize>>) -> (r: Vec<(usize, usize)>)
    ensures
        r@ == dedup(all_face_edges(face_polygons@.map_values(|p: Vec<usize>| p@))),
{
    let ghost polys = face_polygons@.map_values(|p: Vec<usize>| p@);
    let mut out: Vec<(usize, usize)> = Vec::new();
    let mut f: usize = 0;
    while f < face_polygons.len()
        invariant
            f <= face_polygons.len(),
            polys == face_polygons@.map_values(|p: Vec<usize>| p@),
            out@ == dedup(all_face_edges(polys.take(f as int))),
        decreases face_polygons.len() - f,
    {
        let polygon = &face_polygons[f];
        let ghost base = all_face_edges(polys.take(f as int));
        let ghost fe = face_edges(polygon@);
        proof {
            assert(polys.take(f + 1).drop_last() =~= polys.take(f as int));
            assert(polys.take(f + 1).last() == polygon@);
            assert(all_face_edges(polys.take(f + 1)) == base + fe);
        }
        if polygon.len() >= 2 {
            let n = polygon.len();
            let mut i: usize = 0;
            assert(base + fe.take(0) =~= base);
            while i < n
                invariant
                    i <= n,
                    n == polygon@.len(),
                    n >= 2,
                    fe == face_edges(polygon@),
                    out@ == dedup(base + fe.take(i as int)),
                decreases n - i,
            {
                let a = polygon[i];
                let b = polygon[(i + 1) % n];
                let edge = if a <= b { (a, b) } else { (b, a) };
                proof {
                    assert(fe[i as int] == edge);
                    assert((base + fe.take(i + 1)).drop_last() =~= base + fe.take(i as int));
                    assert((base + fe.take(i + 1)).last() == edge);
                }
                let mut seen = false;
                let mut k: usize = 0;
                while k < out.len()
                    invariant
                        k <= out.len(),
                        seen == exists|j: int| 0 <= j < k && out@[j] == edge,
                    decreases out.len() - k,
                {
                    if out[k].0 == edge.0 && out[k].1 == edge.1 {
                        seen = true;
                    }
                    k += 1;
                }
                if !seen {
                    out.push(edge);
                }
                i += 1;
            }
            assert(fe.take(n as int) =~= fe);
        } else {
            assert(fe =~= Seq::<(usize, usize)>::empty());
            assert(base + fe =~= base);
        }
        f += 1;
    }
    assert(polys.take(face_polygons.len() as int) =~= polys);
    out
}

/// The triangles of a convex face fanned out from its first vertex: face
/// `[v0, v1, ..., vn]` gives `[v0, v1, v2]`, `[v0, v2, v3]`, and so on; a
/// face of fewer than three vertices gives none. Indices are narrowed to
/// `u32`, as mesh indices are.
pub fn triangulate_face(indices: &Vec<usize>) -> (r: Vec<[u32; 3]>)
    ensures
        r@.len() == (if indices@.len() < 3 {
            0
        } else {
            indices@.len() - 2
        }),
        forall|t: int|
            0 <= t < r@.len() ==> (#[trigger] r@[t])@ == seq![
                indices@[0] as u32,
                indices@[t + 1] as u32,
                indices@[t + 2] as u32,
            ],
{
    let mut triangles: Vec<[u32; 3]> = Vec::new();
    if indices.len() < 3 {
        return triangles;
    }
    let mut i: usize = 1;
    while i < indices.len() - 1
        invariant
            1 <= i <= indices.len() - 1,
            indices.len() >= 3,
            triangles@.len() == i - 1,
            forall|t: int|
                0 <= t < triangles@.len() ==> (#[trigger] triangles@[t])@ == seq![
                    indices@[0] as u32,
                    indices@[t + 1] as u32,
                    indices@[t + 2] as u32,
                ],
        decreases indices.len() - i,
    {
        let tri: [u32; 3] = [indices[0] as u32, indices[i] as u32, indices[i + 1] as u32];
        assert(tri@ =~= seq![indices@[0] as u32, indices@[i as int] as u32, indices@[i + 1] as u32]);
        triangles.push(tri);
        i += 1;
    }
    triangles
}

} // verus!

verus! {

// ---------------------------------------------------------------------------
// The Delete key
// ---------------------------------------------------------------------------

/// The indices below `n` that `gone` does not hold, in increasing order.
pub open spec fn kept_indices(n: nat, gone: Seq<usize>) -> Seq<usize>
    decreases n,
{
    if n == 0 {
        Seq::empty()
    } else {
        let rest = kept_indices((n - 1) as nat, gone);
        if gone.contains((n - 1) as usize) {
            rest
        } else {
            rest.push((n - 1) as usize)
        }
    }
}

/// Both vertex indices of every edge, edge after edge.
pub open spec fn edge_endpoints(edges: Seq<(usize, usize)>) -> Seq<usize>
    decreases edges.len(),
{
    if edges.len() == 0 {
        Seq::empty()
    } else {
        edge_endpoints(edges.drop_last()) + seq![edges.last().0, edges.last().1]
    }
}

/// The indices below `n` that `gone` does not list, in increasing order.
pub fn keep_unlisted(n: usize, gone: &Vec<usize>) -> (r: Vec<usize>)
    ensures
        r@ == kept_indices(n as nat, gone@),
{
    let mut r: Vec<usize> = Vec::new();
    let mut i: usize = 0;
    while i < n
        invariant
            i <= n,
            r@ == kept_indices(i as nat, gone@),
        decreases n - i,
    {
        let mut listed = false;
        let mut k: usize = 0;
        while k < gone.len()
            invariant
                k <= gone.len(),
                listed == exists|j: int| 0 <= j < k && gone@[j] == i,
            decreases gone.len() - k,
        {
            if gone[k] == i {
                listed = true;
            }
            k += 1;
        }
        if !listed {
            r.push(i);
        }
        i += 1;
    }
    r
}

/// Both vertex indices of every edge, edge after edge.
pub fn endpoints_of(edges: &Vec<(usize, usize)>) -> (r: Vec<usize>)
    ensures
        r@ == edge_endpoints(edges@),
{
    let mut r: Vec<usize> = Vec::new();
    let mut i: usize = 0;
    while i < edges.len()
        invariant
            i <= edges.len(),
            r@ == edge_endpoints(edges@.take(i as int)),
        decreases edges.len() - i,
    {
        proof {
            assert(edges@.take(i + 1).drop_last() =~= edges@.take(i as int));
        }
        r.push(edges[i].0);
        r.push(edges[i].1);
        i += 1;
        assert(r@ =~= edge_endpoints(edges@.take(i as int)));
    }
    assert(edges@.take(edges.len() as int) =~= edges@);
    r
}

/// What the Delete key does to the edited brush.
#[derive(PartialEq, Eq, Debug)]
pub enum BrushDeletion {
    /// Nothing: nothing picked, or too little would be left.
    Nothing,
    /// Rebuild the brush as the hull of these of its vertices.
    RebuildFromVertices(Vec<usize>),
    /// Keep these of its faces and drop the others.
    KeepFaces(Vec<usize>),
}

/// What the Delete key takes away in each sub-mode: picked vertices, or the
/// endpoints of picked edges, are left out of the hull the brush is rebuilt
/// from, picked faces are dropped; in each case only when a solid remains
/// (four vertices, or four faces by count of those picked), never while a
/// drag is under way (`busy`), and never in clip mode.
pub open spec fn deletion_spec(
    mode: BrushEditMode,
    faces: Seq<usize>,
    vertices: Seq<usize>,
    edges: Seq<(usize, usize)>,
    vertex_count: nat,
    face_count: nat,
    busy: bool,
) -> Option<(bool, Seq<usize>)> {
    // `Some((true, keep))` rebuilds from vertices, `Some((false, keep))` keeps faces.
    if busy {
        None
    } else {
        match mode {
            BrushEditMode::Vertex => if vertices.len() == 0 {
                None
            } else {
                let keep = kept_indices(vertex_count, vertices);
                if keep.len() < 4 {
                    None
                } else {
                    Some((true, keep))
                }
            },
            BrushEditMode::Edge => if edges.len() == 0 {
                None
            } else {
                let keep = kept_indices(vertex_count, edge_endpoints(edges));
                if keep.len() < 4 {
                    None
                } else {
                    Some((true, keep))
                }
            },
            BrushEditMode::Face => if faces.len() == 0 {
                None
            } else if face_count - faces.len() < 4 {
                None
            } else {
                Some((false, kept_indices(face_count, faces)))
            },
            BrushEditMode::Clip => None,
        }
    }
}

/// What the Delete key does, as [`deletion_spec`] says.
pub fn plan_brush_delete(
    mode: BrushEditMode,
    selection: &BrushSelection,
    vertex_count: usize,
    face_count: usize,
    busy: bool,
) -> (r: BrushDeletion)
    requires
        mode == BrushEditMode::Face ==> selection.faces@.len() <= face_count,
    ensures
        match deletion_spec(
            mode,
            selection.faces@,
            selection.vertices@,
            selection.edges@,
            vertex_count as nat,
            face_count as nat,
            busy,
        ) {
            None => r == BrushDeletion::Nothing,
            Some((true, keep)) => r matches BrushDeletion::RebuildFromVertices(v) && v@ == keep,
            Some((false, keep)) => r matches BrushDeletion::KeepFaces(v) && v@ == keep,
        },
{
    if busy {
        return BrushDeletion::Nothing;
    }
    match mode {
        BrushEditMode::Vertex => {
            if selection.vertices.len() == 0 {
                return BrushDeletion::Nothing;
            }
            let keep = keep_unlisted(vertex_count, &selection.vertices);
            if keep.len() < 4 {
                return BrushDeletion::Nothing;
            }
            BrushDeletion::RebuildFromVertices(keep)
        },
        BrushEditMode::Edge => {
            if selection.edges.len() == 0 {
                return BrushDeletion::Nothing;
            }
            let ends = endpoints_of(&selection.edges);
            let keep = keep_unlisted(vertex_count, &ends);
            if keep.len() < 4 {
                return BrushDeletion::Nothing;
            }
            BrushDeletion::RebuildFromVertices(keep)
        },
        BrushEditMode::Face => {
            if selection.faces.len() == 0 {
                return BrushDeletion::Nothing;
            }
            if face_count - selection.faces.len() < 4 {
                return BrushDeletion::Nothing;
            }
            BrushDeletion::KeepFaces(keep_unlisted(face_count, &selection.faces))
        },
        BrushEditMode::Clip => BrushDeletion::Nothing,
    }
}

pub proof fn lemma_kept_indices(n: nat, gone: Seq<usize>)
    requires
        n <= usize::MAX,
    ensures
        forall|i: int|
            0 <= i < kept_indices(n, gone).len() ==> (#[trigger] kept_indices(n, gone)[i]) < n
                && !gone.contains(kept_indices(n, gone)[i]),
        forall|x: usize| x < n && !gone.contains(x) ==> #[trigger] kept_indices(n, gone).contains(x),
        forall|i: int, j: int|
            0 <= i < j < kept_indices(n, gone).len() ==> #[trigger] kept_indices(n, gone)[i]
                < #[trigger] kept_indices(n, gone)[j],
    decreases n,
{
    if n > 0 {
        let m = (n - 1) as nat;
        lemma_kept_indices(m, gone);
        let rest = kept_indices(m, gone);
        assert forall|i: int, j: int|
            0 <= i < j < kept_indices(n, gone).len() implies #[trigger] kept_indices(n, gone)[i]
                < #[trigger] kept_indices(n, gone)[j] by {
            if !gone.contains(m as usize) && j == rest.len() {
                assert(rest[i] < m);
            } else {
                assert(kept_indices(n, gone)[i] == rest[i]);
                assert(kept_indices(n, gone)[j] == rest[j]);
            }
        }
        assert forall|x: usize| x < n && !gone.contains(x) implies #[trigger] kept_indices(n, gone).contains(x) by {
            if x < m {
                assert(rest.contains(x));
                let k = choose|k: int| 0 <= k < rest.len() && rest[k] == x;
                if !gone.contains(m as usize) {
                    assert(rest.push(m as usize)[k] == x);
                }
            } else {
                assert(rest.push(m as usize)[rest.len() as int] == x);
            }
        }
    }
}

/// What deleting keeps is exactly what was not picked: every index kept is in
/// range and unpicked, every unpicked index in range is kept, in increasing
/// order; and at least four vertices or faces remain.
pub proof fn law_delete_keeps_unpicked(
    mode: BrushEditMode,
    faces: Seq<usize>,
    vertices: Seq<usize>,
    edges: Seq<(usize, usize)>,
    vertex_count: usize,
    face_count: usize,
)
    ensures
        match deletion_spec(mode, faces, vertices, edges, vertex_count as nat, face_count as nat, false) {
            Some((true, keep)) => {
                let gone = if mode == BrushEditMode::Vertex {
                    vertices
                } else {
                    edge_endpoints(edges)
                };
                &&& keep.len() >= 4
                &&& forall|i: int| 0 <= i < keep.len() ==> (#[trigger] keep[i]) < vertex_count && !gone.contains(keep[i])
                &&& forall|x: usize| x < vertex_count && !gone.contains(x) ==> #[trigger] keep.contains(x)
            },
            Some((false, keep)) => {
                &&& forall|i: int| 0 <= i < keep.len() ==> (#[trigger] keep[i]) < face_count && !faces.contains(keep[i])
                &&& forall|x: usize| x < face_count && !faces.contains(x) ==> #[trigger] keep.contains(x)
            },
            None => true,
        },
{
    lemma_kept_indices(vertex_count as nat, vertices);
    lemma_kept_indices(vertex_count as nat, edge_endpoints(edges));
    lemma_kept_indices(face_count as nat, faces);
}

// ---------------------------------------------------------------------------
// Drawing a new brush
// ---------------------------------------------------------------------------

/// The phase a brush being drawn is in.
#[derive(PartialEq, Eq, Structural, Clone, Copy, Debug)]
pub enum DrawPhase {
    PlacingFirstCorner,
    DrawingFootprint,
    ExtrudingDepth,
}

/// Whether a drawn brush is added to the scene or cut out of what it meets.
#[derive(PartialEq, Eq, Structural, Clone, Copy, Debug)]
pub enum DrawMode {
    Add,
    Cut,
}

/// The part of a brush being drawn that the phase decisions read.
#[derive(PartialEq, Eq, Structural, Clone, Copy, Debug)]
pub struct DrawStep {
    pub phase: DrawPhase,
    pub mode: DrawMode,
}

/// What a frame's keys do to drawing: while drawing, Tab flips between adding
/// and cutting, but only before the first corner is placed; otherwise B starts
/// drawing an added brush, unless a text field, a modal transform, brush
/// editing or walk mode holds the input (`blocked`).
pub fn draw_activate(active: Option<DrawStep>, tab: bool, b_key: bool, blocked: bool) -> (r: Option<DrawStep>)
    ensures
        r == (match active {
            Some(s) => if tab && s.phase == DrawPhase::PlacingFirstCorner {
                Some(
                    DrawStep {
                        phase: s.phase,
                        mode: if s.mode == DrawMode::Add {
                            DrawMode::Cut
                        } else {
                            DrawMode::Add
                        },
                    },
                )
            } else {
                Some(s)
            },
            None => if b_key && !blocked {
                Some(DrawStep { phase: DrawPhase::PlacingFirstCorner, mode: DrawMode::Add })
            } else {
                None
            },
        }),
{
    match active {
        Some(s) => {
            if tab && s.phase == DrawPhase::PlacingFirstCorner {
                let mode = match s.mode {
                    DrawMode::Add => DrawMode::Cut,
                    DrawMode::Cut => DrawMode::Add,
                };
                Some(DrawStep { phase: s.phase, mode })
            } else {
                Some(s)
            }
        },
        None => {
            if b_key && !blocked {
                Some(DrawStep { phase: DrawPhase::PlacingFirstCorner, mode: DrawMode::Add })
            } else {
                None
            }
        },
    }
}

/// What a left click in the viewport does to the brush being drawn.
#[derive(PartialEq, Eq, Structural, Clone, Copy, Debug)]
pub enum DrawClick {
    /// Keep drawing in the same phase.
    Stay,
    /// Go on to this phase.
    Advance(DrawPhase),
    /// Stop drawing and add or cut the brush.
    Finish(DrawMode),
}

/// A click places the first corner when the cursor is on the drawing plane,
/// ends the footprint once it is wide enough both ways, and ends the brush
/// once it has depth.
pub fn draw_click(step: DrawStep, cursor_on_plane: bool, footprint_wide_enough: bool, depth_enough: bool) -> (r: DrawClick)
    ensures
        r == (match step.phase {
            DrawPhase::PlacingFirstCorner => if cursor_on_plane {
                DrawClick::Advance(DrawPhase::DrawingFootprint)
            } else {
                DrawClick::Stay
            },
            DrawPhase::DrawingFootprint => if footprint_wide_enough {
                DrawClick::Advance(DrawPhase::ExtrudingDepth)
            } else {
                DrawClick::Stay
            },
            DrawPhase::ExtrudingDepth => if depth_enough {
                DrawClick::Finish(step.mode)
            } else {
                DrawClick::Stay
            },
        }),
{
    match step.phase {
        DrawPhase::PlacingFirstCorner => if cursor_on_plane {
            DrawClick::Advance(DrawPhase::DrawingFootprint)
        } else {
            DrawClick::Stay
        },
        DrawPhase::DrawingFootprint => if footprint_wide_enough {
            DrawClick::Advance(DrawPhase::ExtrudingDepth)
        } else {
            DrawClick::Stay
        },
        DrawPhase::ExtrudingDepth => if depth_enough {
            DrawClick::Finish(step.mode)
        } else {
            DrawClick::Stay
        },
    }
}

/// Whether drawing stops without a brush: Escape or a right click.
pub fn draw_cancelled(drawing: bool, escape: bool, right_click: bool) -> (r: bool)
    ensures
        r == (drawing && (escape || right_click)),
{
    drawing && (escape || right_click)
}

/// The position of a phase in the order a brush is drawn.
pub open spec fn phase_index(p: DrawPhase) -> int {
    match p {
        DrawPhase::PlacingFirstCorner => 0,
        DrawPhase::DrawingFootprint => 1,
        DrawPhase::ExtrudingDepth => 2,
    }
}

/// Clicks only move drawing forward, one phase at a time, and a brush is
/// only ever finished from the depth phase, in the mode it was drawn in; the
/// mode can only change before the first corner is placed.
pub proof fn law_draw_phases_advance(step: DrawStep, on_plane: bool, wide: bool, deep: bool, tab: bool)
    ensures
        ({
            let c = if step.phase == DrawPhase::PlacingFirstCorner {
                if on_plane {
                    DrawClick::Advance(DrawPhase::DrawingFootprint)
                } else {
                    DrawClick::Stay
                }
            } else if step.phase == DrawPhase::DrawingFootprint {
                if wide {
                    DrawClick::Advance(DrawPhase::ExtrudingDepth)
                } else {
                    DrawClick::Stay
                }
            } else if deep {
                DrawClick::Finish(step.mode)
            } else {
                DrawClick::Stay
            };
            &&& c matches DrawClick::Advance(p) ==> phase_index(p) == phase_index(step.phase) + 1
            &&& c matches DrawClick::Finish(m) ==> step.phase == DrawPhase::ExtrudingDepth && m == step.mode
        }),
{
}

// ---------------------------------------------------------------------------
// Dragging picked faces, vertices and edges
// ---------------------------------------------------------------------------

/// The axis a vertex or edge drag is held to.
#[derive(Debug, Clone, Copy, PartialEq, Eq, Structural)]
pub enum VertexDragConstraint {
    Free,
    AxisX,
    AxisY,
    AxisZ,
}

/// The keys and buttons a drag reads on a frame.
#[derive(Debug, Clone, Copy)]
pub struct DragKeys {
    /// `G` or `E`: start moving (or extruding) the picked elements.
    pub grab: bool,
    pub axis_x: bool,
    pub axis_y: bool,
    pub axis_z: bool,
    /// Escape or the right button: put the brush back as it was.
    pub cancel: bool,
    /// The left button or Enter: keep the moved brush.
    pub confirm: bool,
}

/// What a frame of a drag does.
#[derive(Debug, Clone, Copy, PartialEq, Eq, Structural)]
pub enum DragAction {
    /// Nothing this frame.
    Wait,
    /// Take a snapshot of the brush and start the drag.
    Start,
    /// Put the brush back to the snapshot.
    Cancel,
    /// Keep the moved brush, as one undo step from the snapshot.
    Confirm,
    /// Move the picked elements by the cursor's travel since the start.
    Continue,
}

/// A drag of picked brush elements, as far as its decisions go: whether it
/// runs, the axis it is held to, and whether a snapshot of the brush was taken.
#[derive(Debug, Clone, Copy)]
pub struct DragSession {
    pub active: bool,
    pub constraint: VertexDragConstraint,
    pub has_start: bool,
}

/// The axis after an axis key: the same key again frees the drag.
pub open spec fn constraint_after(c: VertexDragConstraint, keys: DragKeys) -> VertexDragConstraint {
    if keys.axis_x {
        if c == VertexDragConstraint::AxisX { VertexDragConstraint::Free } else { VertexDragConstraint::AxisX }
    } else if keys.axis_y {
        if c == VertexDragConstraint::AxisY { VertexDragConstraint::Free } else { VertexDragConstraint::AxisY }
    } else if keys.axis_z {
        if c == VertexDragConstraint::AxisZ { VertexDragConstraint::Free } else { VertexDragConstraint::AxisZ }
    } else {
        c
    }
}

/// One frame of a drag, in the order the editor weighs it: leaving the mode
/// stops it; while the viewport cannot be read nothing happens; the grab key
/// starts a drag when elements are picked (and, where the drag needs the
/// brush's mesh, `can_start` says it is there); a running drag takes an axis
/// key (when `axes` says the drag has axes), then a cancel, then a confirm,
/// and otherwise follows the cursor.
pub open spec fn drag_spec(
    s: DragSession,
    in_mode: bool,
    ready: bool,
    picked: bool,
    can_start: bool,
    axes: bool,
    keys: DragKeys,
) -> (DragSession, DragAction) {
    if !in_mode {
        (DragSession { active: false, ..s }, DragAction::Wait)
    } else if !ready {
        (s, DragAction::Wait)
    } else if keys.grab && !s.active && picked {
        if can_start {
            (DragSession { active: true, constraint: VertexDragConstraint::Free, has_start: true }, DragAction::Start)
        } else {
            (s, DragAction::Wait)
        }
    } else if !s.active {
        (s, DragAction::Wait)
    } else {
        let c = if axes { constraint_after(s.constraint, keys) } else { s.constraint };
        let freed = if axes { VertexDragConstraint::Free } else { c };
        if keys.cancel {
            (DragSession { active: false, constraint: freed, has_start: s.has_start }, DragAction::Cancel)
        } else if keys.confirm {
            (DragSession { active: false, constraint: freed, has_start: s.has_start }, DragAction::Confirm)
        } else if !s.has_start {
            (DragSession { active: false, constraint: c, has_start: false }, DragAction::Wait)
        } else {
            (DragSession { constraint: c, ..s }, DragAction::Continue)
        }
    }
}

impl DragSession {
    /// No drag.
    pub fn new() -> (r: Self)
        ensures
            !r.active,
            r.constraint == VertexDragConstraint::Free,
            !r.has_start,
    {
        DragSession { active: false, constraint: VertexDragConstraint::Free, has_start: false }
    }

    /// One frame of the drag; see `drag_spec`.
    pub fn step(&mut self, in_mode: bool, ready: bool, picked: bool, can_start: bool, axes: bool, keys: DragKeys) -> (r: DragAction)
        ensures
            (*final(self), r) == drag_spec(*old(self), in_mode, ready, picked, can_start, axes, keys),
    {
        if !in_mode {
            self.active = false;
            return DragAction::Wait;
        }
        if !ready {
            return DragAction::Wait;
        }
        if keys.grab && !self.active && picked {
            if can_start {
                self.active = true;
                self.constraint = VertexDragConstraint::Free;
                self.has_start = true;
                return DragAction::Start;
            }
            return DragAction::Wait;
        }
        if !self.active {
            return DragAction::Wait;
        }
        if axes {
            if keys.axis_x {
                self.constraint = if self.constraint == VertexDragConstraint::AxisX {
                    VertexDragConstraint::Free
                } else {
                    VertexDragConstraint::AxisX
                };
            } else if keys.axis_y {
                self.constraint = if self.constraint == VertexDragConstraint::AxisY {
                    VertexDragConstraint::Free
                } else {
                    VertexDragConstraint::AxisY
                };
            } else if keys.axis_z {
                self.constraint = if self.constraint == VertexDragConstraint::AxisZ {
                    VertexDragConstraint::Free
                } else {
                    VertexDragConstraint::AxisZ
                };
            }
        }
        if keys.cancel || keys.confirm {
            self.active = false;
            if axes {
                self.constraint = VertexDragConstraint::Free;
            }
            return if keys.cancel {
                DragAction::Cancel
            } else {
                DragAction::Confirm
            };
        }
        if !self.has_start {
            self.active = false;
            return DragAction::Wait;
        }
        DragAction::Continue
    }
}

/// A drag ends with a cancel or a confirm: it stops, and an axis-held drag is
/// freed; and once started, a drag only ever continues from its snapshot.
pub proof fn law_drag_ends_free(
    s: DragSession,
    in_mode: bool,
    ready: bool,
    picked: bool,
    can_start: bool,
    axes: bool,
    keys: DragKeys,
)
    ensures
        ({
            let (t, a) = drag_spec(s, in_mode, ready, picked, can_start, axes, keys);
            &&& (a == DragAction::Cancel || a == DragAction::Confirm) ==> !t.active && (axes ==> t.constraint
                == VertexDragConstraint::Free)
            &&& a == DragAction::Start ==> t.active && t.has_start && t.constraint == VertexDragConstraint::Free
            &&& a == DragAction::Continue ==> t.active && t.has_start
            &&& !in_mode ==> !t.active
        }),
{
}

/// The axis an axis key names.
pub open spec fn pressed_axis(keys: DragKeys) -> VertexDragConstraint {
    if keys.axis_x {
        VertexDragConstraint::AxisX
    } else if keys.axis_y {
        VertexDragConstraint::AxisY
    } else {
        VertexDragConstraint::AxisZ
    }
}

/// An axis key always changes the constraint: it holds a free drag (or one
/// held to another axis) to its axis, and frees a drag held to its axis; so
/// the same key twice puts a free drag, or one held to that axis, back as it
/// was.
pub proof fn law_axis_key_twice(c: VertexDragConstraint, keys: DragKeys)
    requires
        keys.axis_x || keys.axis_y || keys.axis_z,
    ensures
        constraint_after(c, keys) == (if c == pressed_axis(keys) {
            VertexDragConstraint::Free
        } else {
            pressed_axis(keys)
        }),
        c == VertexDragConstraint::Free || c == pressed_axis(keys) ==> constraint_after(constraint_after(c, keys), keys)
            == c,
{
}

/// The drag keys, each pressed alone in the mode with the viewport readable:
/// G or E starts a drag of picked elements, free of any axis; on a running
/// drag with axes, X, Y and Z hold it to the X, Y and Z axes and the same key
/// again frees it, Escape or a right click cancels it and a left click or
/// Enter confirms it, both leaving it stopped and free; with no key the drag
/// follows the cursor.
pub proof fn law_drag_keys(picked: bool, can_start: bool)
    ensures
        ({
            let none = DragKeys {
                grab: false,
                axis_x: false,
                axis_y: false,
                axis_z: false,
                cancel: false,
                confirm: false,
            };
            let idle = DragSession { active: false, constraint: VertexDragConstraint::Free, has_start: false };
            let free = DragSession { active: true, constraint: VertexDragConstraint::Free, has_start: true };
            let on_x = DragSession { constraint: VertexDragConstraint::AxisX, ..free };
            let on_y = DragSession { constraint: VertexDragConstraint::AxisY, ..free };
            let on_z = DragSession { constraint: VertexDragConstraint::AxisZ, ..free };
            let stopped = DragSession { active: false, ..free };
            &&& drag_spec(idle, true, true, true, true, true, DragKeys { grab: true, ..none }) == (
                free,
                DragAction::Start,
            )
            &&& drag_spec(free, true, true, picked, can_start, true, DragKeys { axis_x: true, ..none }) == (
                on_x,
                DragAction::Continue,
            )
            &&& drag_spec(free, true, true, picked, can_start, true, DragKeys { axis_y: true, ..none }) == (
                on_y,
                DragAction::Continue,
            )
            &&& drag_spec(free, true, true, picked, can_start, true, DragKeys { axis_z: true, ..none }) == (
                on_z,
                DragAction::Continue,
            )
            &&& drag_spec(on_x, true, true, picked, can_start, true, DragKeys { axis_x: true, ..none }) == (
                free,
                DragAction::Continue,
            )
            &&& drag_spec(on_y, true, true, picked, can_start, true, DragKeys { axis_y: true, ..none }) == (
                free,
                DragAction::Continue,
            )
            &&& drag_spec(on_z, true, true, picked, can_start, true, DragKeys { axis_z: true, ..none }) == (
                free,
                DragAction::Continue,
            )
            &&& drag_spec(on_x, true, true, picked, can_start, true, DragKeys { cancel: true, ..none }) == (
                stopped,
                DragAction::Cancel,
            )
            &&& drag_spec(on_y, true, true, picked, can_start, true, DragKeys { confirm: true, ..none }) == (
                stopped,
                DragAction::Confirm,
            )
            &&& drag_spec(on_z, true, true, picked, can_start, true, none) == (on_z, DragAction::Continue)
        }),
{
}

/// One frame's inputs to a drag.
#[derive(Debug, Clone, Copy)]
pub struct DragFrame {
    /// Whether the editor is in the drag's element mode.
    pub in_mode: bool,
    /// Whether the viewport can be read (no text field holds the keyboard,
    /// and the brush, window, cursor and camera are there).
    pub ready: bool,
    /// Whether elements are picked.
    pub picked: bool,
    /// Whether the drag may start (the brush's mesh is there, where needed).
    pub can_start: bool,
    /// Whether the drag has axes.
    pub axes: bool,
    pub keys: DragKeys,
}

/// What a frame does to the session.
pub open spec fn frame_spec(s: DragSession, f: DragFrame) -> (DragSession, DragAction) {
    drag_spec(s, f.in_mode, f.ready, f.picked, f.can_start, f.axes, f.keys)
}

/// A drag of a brush's parts together with the snapshot of the brush taken
/// when it began, `B` being however a brush is held.
pub struct BrushDrag<B> {
    pub session: DragSession,
    pub start: Option<B>,
}

/// What a frame of a brush drag did beyond the brush itself.
#[derive(Debug, PartialEq, Eq)]
pub enum DragOutcome<B> {
    /// Nothing.
    Nothing,
    /// The drag began; the snapshot was taken.
    Started,
    /// The drag was cancelled; the brush was put back to the snapshot.
    Restored,
    /// The drag was confirmed: one undo entry, from the snapshot to the
    /// moved brush.
    Record { old: B, new: B },
    /// The drag ended with no snapshot to put back or record.
    Stopped,
    /// The drag goes on: the picked elements follow the cursor, the brush being
    /// rebuilt from the snapshot.
    Follow,
}

/// What a frame other than a start does to the snapshot and the brush, and
/// the old values of the undo entries it records: a cancel puts the snapshot
/// back, a confirm records one entry from it and leaves the brush, a
/// continued drag rebuilds the brush (as `rebuilt`), and nothing else
/// changes either.
pub open spec fn settle_spec<B>(a: DragAction, start: Option<B>, brush: B, rebuilt: B) -> (Option<B>, B, Seq<B>) {
    match a {
        DragAction::Cancel => (None, match start {
            Some(s) => s,
            None => brush,
        }, Seq::empty()),
        DragAction::Confirm => (None, brush, match start {
            Some(s) => seq![s],
            None => Seq::empty(),
        }),
        DragAction::Continue => (start, rebuilt, Seq::empty()),
        _ => (start, brush, Seq::empty()),
    }
}

impl<B: Clone> BrushDrag<B> {
    /// No drag, no snapshot.
    pub fn new() -> (r: Self)
        ensures
            !r.session.active,
            r.session.constraint == VertexDragConstraint::Free,
            r.start is None,
    {
        BrushDrag { session: DragSession::new(), start: None }
    }

    /// One frame of a brush drag: the session's step (see `drag_spec`), then
    /// the brush and the undo history as the step says. A start snapshots the
    /// brush; a cancel puts the snapshot back; a confirm hands over one undo
    /// entry from the snapshot to a copy of the brush and leaves the brush as
    /// it is; every other frame leaves the brush and records nothing.
    pub fn frame(&mut self, f: DragFrame, brush: &mut B) -> (r: DragOutcome<B>)
        ensures
            ({
                let (t, a) = frame_spec(old(self).session, f);
                &&& final(self).session == t
                &&& a == DragAction::Start ==> (r == DragOutcome::<B>::Started && *final(brush) == *old(brush)
                    && final(self).start is Some && cloned(*old(brush), final(self).start.unwrap()))
                &&& a != DragAction::Start ==> (final(self).start, *final(brush), match r {
                    DragOutcome::Record { old, .. } => seq![old],
                    _ => Seq::empty(),
                }) == settle_spec(a, old(self).start, *old(brush), *old(brush))
                &&& a == DragAction::Cancel ==> r == (if old(self).start is Some {
                    DragOutcome::<B>::Restored
                } else {
                    DragOutcome::<B>::Stopped
                })
                &&& a == DragAction::Confirm ==> (if old(self).start is Some {
                    (r matches DragOutcome::Record { new, .. } && cloned(*old(brush), new))
                } else {
                    r == DragOutcome::<B>::Stopped
                })
                &&& a == DragAction::Continue ==> r == DragOutcome::<B>::Follow
                &&& a == DragAction::Wait ==> r == DragOutcome::<B>::Nothing
            }),
    {
        let a = self.session.step(f.in_mode, f.ready, f.picked, f.can_start, f.axes, f.keys);
        match a {
            DragAction::Start => {
                self.start = Some(brush.clone());
                DragOutcome::Started
            },
            DragAction::Cancel => {
                match self.start.take() {
                    Some(snap) => {
                        *brush = snap;
                        DragOutcome::Restored
                    },
                    None => DragOutcome::Stopped,
                }
            },
            DragAction::Confirm => {
                match self.start.take() {
                    Some(snap) => DragOutcome::Record { old: snap, new: brush.clone() },
                    None => DragOutcome::Stopped,
                }
            },
            DragAction::Continue => DragOutcome::Follow,
            DragAction::Wait => DragOutcome::Nothing,
        }
    }
}

/// One undo entry of a brush edit on `entity`: the brush before and after,
/// and the label the history shows for it.
pub struct SetBrush<B> {
    pub entity: u64,
    pub old: B,
    pub new: B,
    pub label: String,
}

impl<B: Clone> BrushDrag<B> {
    /// One frame of a drag on `entity`'s brush, as `frame` does it, with a
    /// confirm's entry recorded in `history` (see `record_spec`) under
    /// `label`; every other frame leaves the history as it is. Returns
    /// whether the drag follows the cursor this frame, the caller then
    /// rebuilding the brush from the snapshot.
    pub fn frame_recording(
        &mut self,
        f: DragFrame,
        entity: u64,
        label: &String,
        brush: &mut B,
        history: &mut UndoHistory<SetBrush<B>>,
    ) -> (follow: bool)
        ensures
            ({
                let (t, a) = frame_spec(old(self).session, f);
                let settled = settle_spec(a, old(self).start, *old(brush), *old(brush));
                &&& final(self).session == t
                &&& a == DragAction::Start ==> (*final(brush) == *old(brush) && final(self).start is Some
                    && cloned(*old(brush), final(self).start.unwrap()))
                &&& a != DragAction::Start ==> final(self).start == settled.0 && *final(brush) == settled.1
                &&& follow == (a == DragAction::Continue)
                &&& if a == DragAction::Confirm && old(self).start is Some {
                    let e = final(history).undo_stack@.last();
                    &&& (final(history).undo_stack@, final(history).redo_stack@) == record_spec(
                        old(history).undo_stack@,
                        old(history).redo_stack@,
                        SetBrush { entity, old: old(self).start.unwrap(), new: e.new, label: *label },
                    )
                    &&& cloned(*old(brush), e.new)
                } else {
                    &&& final(history).undo_stack@ == old(history).undo_stack@
                    &&& final(history).redo_stack@ == old(history).redo_stack@
                }
            }),
    {
        let ghost start0 = self.start;
        let ghost brush0 = *brush;
        let ghost a = frame_spec(self.session, f).1;
        match self.frame(f, brush) {
            DragOutcome::Record { old, new } => {
                proof {
                    assert(a == DragAction::Confirm && start0 is Some) by {
                        if a != DragAction::Confirm || start0 is None {
                            assert(settle_spec(a, start0, brush0, brush0).2.len() == 0);
                        }
                    }
                    assert(seq![old][0] == settle_spec(a, start0, brush0, brush0).2[0]);
                }
                let e = SetBrush { entity, old, new, label: label.clone() };
                history.record(e);
                false
            },
            DragOutcome::Follow => true,
            _ => false,
        }
    }
}

/// A run of frames after a drag began: the session, the snapshot, the brush
/// (rebuilt to `rebuilt[i]` on a continued frame `i`) and the old values of
/// the undo entries recorded, start frames left aside.
pub open spec fn drag_run<B>(
    s: DragSession,
    start: Option<B>,
    brush: B,
    frames: Seq<DragFrame>,
    rebuilt: Seq<B>,
) -> (DragSession, Option<B>, B, Seq<B>)
    decreases frames.len(),
{
    if frames.len() == 0 {
        (s, start, brush, Seq::empty())
    } else {
        let n = frames.len() - 1;
        let (s1, st1, b1, rec1) = drag_run(s, start, brush, frames.take(n), rebuilt);
        let (s2, a) = frame_spec(s1, frames[n]);
        let (st2, b2, rec2) = settle_spec(a, st1, b1, rebuilt[n]);
        (s2, st2, b2, rec1 + rec2)
    }
}

/// The undo and redo stacks after a run of frames recorded as
/// `frame_recording` records them, from `undo` and `redo`: each confirm with
/// a snapshot records an entry on `entity` labelled `label`, from the
/// snapshot to `news[i]`, the copy of the brush confirm frame `i` made.
pub open spec fn run_history<B>(
    s: DragSession,
    start: Option<B>,
    brush: B,
    frames: Seq<DragFrame>,
    rebuilt: Seq<B>,
    news: Seq<B>,
    entity: u64,
    label: String,
    undo: Seq<SetBrush<B>>,
    redo: Seq<SetBrush<B>>,
) -> (Seq<SetBrush<B>>, Seq<SetBrush<B>>)
    decreases frames.len(),
{
    if frames.len() == 0 {
        (undo, redo)
    } else {
        let n = frames.len() - 1;
        let (u1, r1) = run_history(s, start, brush, frames.take(n), rebuilt, news, entity, label, undo, redo);
        let (s1, st1, b1, rec1) = drag_run(s, start, brush, frames.take(n), rebuilt);
        if frame_spec(s1, frames[n]).1 == DragAction::Confirm && st1 is Some {
            record_spec(u1, r1, SetBrush { entity, old: st1.unwrap(), new: news[n], label })
        } else {
            (u1, r1)
        }
    }
}

/// Whether every frame of `frames` continues the drag.
pub open spec fn all_continue<B>(s: DragSession, start: Option<B>, brush: B, frames: Seq<DragFrame>, rebuilt: Seq<B>) -> bool {
    forall|i: int|
        0 <= i < frames.len() ==> (#[trigger] frame_spec(
            drag_run(s, start, brush, frames.take(i), rebuilt).0,
            frames[i],
        )).1 == DragAction::Continue
}

proof fn lemma_continuing_run<B>(s: DragSession, snap: B, brush: B, frames: Seq<DragFrame>, rebuilt: Seq<B>)
    requires
        s.active,
        s.has_start,
        all_continue(s, Some(snap), brush, frames, rebuilt),
    ensures
        ({
            let (t, st, b, rec) = drag_run(s, Some(snap), brush, frames, rebuilt);
            &&& t.active && t.has_start
            &&& st == Some(snap)
            &&& rec == Seq::<B>::empty()
            &&& frames.len() > 0 ==> b == rebuilt[frames.len() - 1]
            &&& frames.len() == 0 ==> b == brush
        }),
    decreases frames.len(),
{
    if frames.len() > 0 {
        let n = frames.len() - 1;
        let pre = frames.take(n);
        assert forall|i: int| 0 <= i < pre.len() implies (#[trigger] frame_spec(
            drag_run(s, Some(snap), brush, pre.take(i), rebuilt).0,
            pre[i],
        )).1 == DragAction::Continue by {
            assert(pre.take(i) =~= frames.take(i));
            assert(pre[i] == frames[i]);
            assert(frame_spec(drag_run(s, Some(snap), brush, frames.take(i), rebuilt).0, frames[i]).1
                == DragAction::Continue);
        }
        lemma_continuing_run(s, snap, brush, pre, rebuilt);
        assert(frame_spec(drag_run(s, Some(snap), brush, frames.take(n), rebuilt).0, frames[n]).1
            == DragAction::Continue);
    }
}

proof fn lemma_continuing_history<B>(
    s: DragSession,
    snap: B,
    brush: B,
    frames: Seq<DragFrame>,
    rebuilt: Seq<B>,
    news: Seq<B>,
    entity: u64,
    label: String,
    undo: Seq<SetBrush<B>>,
    redo: Seq<SetBrush<B>>,
)
    requires
        all_continue(s, Some(snap), brush, frames, rebuilt),
    ensures
        run_history(s, Some(snap), brush, frames, rebuilt, news, entity, label, undo, redo) == (undo, redo),
    decreases frames.len(),
{
    if frames.len() > 0 {
        let n = frames.len() - 1;
        let pre = frames.take(n);
        assert forall|i: int| 0 <= i < pre.len() implies (#[trigger] frame_spec(
            drag_run(s, Some(snap), brush, pre.take(i), rebuilt).0,
            pre[i],
        )).1 == DragAction::Continue by {
            assert(pre.take(i) =~= frames.take(i));
            assert(pre[i] == frames[i]);
            assert(frame_spec(drag_run(s, Some(snap), brush, frames.take(i), rebuilt).0, frames[i]).1
                == DragAction::Continue);
        }
        lemma_continuing_history(s, snap, brush, pre, rebuilt, news, entity, label, undo, redo);
        assert(frame_spec(drag_run(s, Some(snap), brush, frames.take(n), rebuilt).0, frames[n]).1
            == DragAction::Continue);
    }
}

/// A drag begun on a brush `original` whose snapshot is `snap`, followed by
/// any number of frames that move the parts, then a cancel: the brush is put
/// back to the snapshot (so to `original` itself, where copying a brush gives
/// an equal one), however many frames moved it, and the undo and redo stacks
/// are as they were before the drag; the drag stops, freed of any axis.
pub proof fn law_cancelled_drag_restores<B: Clone>(
    s: DragSession,
    original: B,
    snap: B,
    brush: B,
    frames: Seq<DragFrame>,
    last: DragFrame,
    rebuilt: Seq<B>,
    news: Seq<B>,
    entity: u64,
    label: String,
    undo: Seq<SetBrush<B>>,
    redo: Seq<SetBrush<B>>,
)
    requires
        s.active,
        s.has_start,
        all_continue(s, Some(snap), brush, frames, rebuilt),
        frame_spec(drag_run(s, Some(snap), brush, frames, rebuilt).0, last).1 == DragAction::Cancel,
    ensures
        ({
            let all = frames.push(last);
            let (t, st, b, rec) = drag_run(s, Some(snap), brush, all, rebuilt);
            &&& b == snap
            &&& (cloned(original, snap) && forall|x: B, y: B| #[trigger] cloned(x, y) ==> x == y) ==> b
                == original
            &&& rec == Seq::<B>::empty()
            &&& run_history(s, Some(snap), brush, all, rebuilt, news, entity, label, undo, redo) == (undo, redo)
            &&& !t.active
            &&& last.axes ==> t.constraint == VertexDragConstraint::Free
            &&& st is None
        }),
{
    lemma_continuing_run(s, snap, brush, frames, rebuilt);
    lemma_continuing_history(s, snap, brush, frames, rebuilt, news, entity, label, undo, redo);
    let all = frames.push(last);
    assert(all.take(frames.len() as int) =~= frames);
}

/// A drag begun on a brush whose snapshot is `snap`, followed by any number
/// of frames that move the parts, then a confirm: exactly one undo entry is
/// recorded over the whole drag, on the dragged entity under the drag's
/// label, from the snapshot to the copy the confirm made, on top of the undo
/// stack as it was before the drag, and nothing is left to redo; the confirm
/// leaves the brush as the last move made it; the drag stops, freed of any
/// axis.
pub proof fn law_confirmed_drag_records_once<B>(
    s: DragSession,
    snap: B,
    brush: B,
    frames: Seq<DragFrame>,
    last: DragFrame,
    rebuilt: Seq<B>,
    news: Seq<B>,
    entity: u64,
    label: String,
    undo: Seq<SetBrush<B>>,
    redo: Seq<SetBrush<B>>,
)
    requires
        s.active,
        s.has_start,
        all_continue(s, Some(snap), brush, frames, rebuilt),
        frame_spec(drag_run(s, Some(snap), brush, frames, rebuilt).0, last).1 == DragAction::Confirm,
    ensures
        ({
            let all = frames.push(last);
            let (t0, st0, b0, rec0) = drag_run(s, Some(snap), brush, frames, rebuilt);
            let (t, st, b, rec) = drag_run(s, Some(snap), brush, all, rebuilt);
            &&& rec == seq![snap]
            &&& run_history(s, Some(snap), brush, all, rebuilt, news, entity, label, undo, redo) == (
                undo.push(SetBrush { entity, old: snap, new: news[frames.len() as int], label }),
                Seq::<SetBrush<B>>::empty(),
            )
            &&& b == b0
            &&& !t.active
            &&& last.axes ==> t.constraint == VertexDragConstraint::Free
            &&& st is None
        }),
{
    lemma_continuing_run(s, snap, brush, frames, rebuilt);
    lemma_continuing_history(s, snap, brush, frames, rebuilt, news, entity, label, undo, redo);
    let all = frames.push(last);
    assert(all.take(frames.len() as int) =~= frames);
    assert(all[frames.len() as int] == last);
    assert(Seq::<B>::empty() + seq![snap] =~= seq![snap]);
}

/// The vertices an edge drag moves: the ends of the picked edges, each once,
/// in the order the edges first reach them.
pub fn edge_drag_vertices(edges: &Vec<(usize, usize)>) -> (r: Vec<usize>)
    ensures
        r@ == dedup(edge_endpoints(edges@)),
{
    let ends = endpoints_of(edges);
    let mut r: Vec<usize> = Vec::new();
    let mut i: usize = 0;
    while i < ends.len()
        invariant
            i <= ends.len(),
            r@ == dedup(ends@.take(i as int)),
        decreases ends.len() - i,
    {
        let x = ends[i];
        let mut seen = false;
        let mut j: usize = 0;
        while j < r.len()
            invariant
                j <= r.len(),
                seen <==> exists|k: int| 0 <= k < j && r@[k] == x,
            decreases r.len() - j,
        {
            if r[j] == x {
                seen = true;
            }
            j += 1;
        }
        assert(ends@.take(i + 1).drop_last() =~= ends@.take(i as int));
        assert(ends@.take(i + 1).last() == x);
        if !seen {
            r.push(x);
        }
        i += 1;
    }
    assert(ends@.take(ends.len() as int) =~= ends@);
    r
}

// ---------------------------------------------------------------------------
// Clip mode
// ---------------------------------------------------------------------------

/// Clip mode's state: the points picked on the brush, at most three, as the
/// clip plane is made from two points and the view or from three points; and
/// the plane previewed from them, `L` being however a plane is held.
pub struct ClipState<P, L> {
    pub points: Vec<P>,
    pub preview_plane: Option<L>,
}

/// How a clip plane is made from the points picked so far.
#[derive(Debug, Clone, Copy, PartialEq, Eq, Structural)]
pub enum ClipPlaneFrom {
    /// Too few points for a plane.
    Nothing,
    /// The line through two points, turned to face the camera.
    TwoPointsAndView,
    /// The plane through three points.
    ThreePoints,
}

impl<P, L> ClipState<P, L> {
    pub open spec fn wf(&self) -> bool {
        self.points@.len() <= 3
    }

    /// No points picked, no plane.
    pub fn new() -> (r: Self)
        ensures
            r.wf(),
            r.points@.len() == 0,
            r.preview_plane is None,
    {
        ClipState { points: Vec::new(), preview_plane: None }
    }

    /// Leaving clip mode or pressing Escape drops the points and the plane.
    pub fn clear(&mut self)
        ensures
            final(self).wf(),
            final(self).points@.len() == 0,
            final(self).preview_plane is None,
    {
        self.points = Vec::new();
        self.preview_plane = None;
    }

    /// Whether a click picks another point: only while fewer than three are
    /// picked.
    pub fn takes_point(&self, click: bool) -> (r: bool)
        ensures
            r == (click && self.points@.len() < 3),
    {
        click && self.points.len() < 3
    }

    /// Records the point a click hit on the brush, if it hit it.
    pub fn add(&mut self, hit: Option<P>)
        requires
            old(self).points@.len() < 3,
        ensures
            final(self).wf(),
            final(self).points@ == match hit {
                Some(p) => old(self).points@.push(p),
                None => old(self).points@,
            },
            final(self).preview_plane == old(self).preview_plane,
    {
        if let Some(p) = hit {
            self.points.push(p);
        }
    }

    /// How the preview plane is made from the points picked.
    pub fn plane_from(&self) -> (r: ClipPlaneFrom)
        ensures
            r == (if self.points@.len() == 2 {
                ClipPlaneFrom::TwoPointsAndView
            } else if self.points@.len() == 3 {
                ClipPlaneFrom::ThreePoints
            } else {
                ClipPlaneFrom::Nothing
            }),
    {
        let n = self.points.len();
        if n == 2 {
            ClipPlaneFrom::TwoPointsAndView
        } else if n == 3 {
            ClipPlaneFrom::ThreePoints
        } else {
            ClipPlaneFrom::Nothing
        }
    }

    /// Records the plane previewed from the points (none when they make no
    /// plane).
    pub fn set_preview(&mut self, plane: Option<L>)
        ensures
            final(self).points@ == old(self).points@,
            final(self).preview_plane == plane,
    {
        self.preview_plane = plane;
    }

    /// Enter with a preview plane hands the plane over to clip the brush by,
    /// and drops the points and the plane; otherwise nothing changes.
    pub fn apply(&mut self, enter: bool) -> (r: Option<L>)
        requires
            old(self).wf(),
        ensures
            final(self).wf(),
            (enter && old(self).preview_plane is Some) ==> r == old(self).preview_plane
                && final(self).points@.len() == 0 && final(self).preview_plane is None,
            !(enter && old(self).preview_plane is Some) ==> r is None && final(self).points@ == old(
                self,
            ).points@ && final(self).preview_plane == old(self).preview_plane,
    {
        if enter && self.preview_plane.is_some() {
            let plane = self.preview_plane.take();
            self.points = Vec::new();
            plane
        } else {
            None
        }
    }
}

// ---------------------------------------------------------------------------
// Subtracting a drawn brush
// ---------------------------------------------------------------------------

/// `s` without the entities listed in `removed`, in the order of `s`.
pub open spec fn without_entities(s: Seq<u64>, removed: Seq<u64>) -> Seq<u64>
    decreases s.len(),
{
    if s.len() == 0 {
        Seq::empty()
    } else {
        without_entities(s.drop_last(), removed) + if removed.contains(s.last()) {
            Seq::empty()
        } else {
            seq![s.last()]
        }
    }
}

pub proof fn lemma_without_entities(s: Seq<u64>, removed: Seq<u64>)
    ensures
        forall|e: u64| #[trigger] without_entities(s, removed).contains(e) <==> (s.contains(e) && !removed.contains(e)),
    decreases s.len(),
{
    if s.len() > 0 {
        lemma_without_entities(s.drop_last(), removed);
        let d = without_entities(s.drop_last(), removed);
        assert forall|e: u64| #[trigger] without_entities(s, removed).contains(e) <==> (s.contains(e)
            && !removed.contains(e)) by {
            let w = without_entities(s, removed);
            if s.contains(e) && !removed.contains(e) {
                let k = choose|k: int| 0 <= k < s.len() && s[k] == e;
                if k < s.len() - 1 {
                    assert(s.drop_last()[k] == e);
                    assert(s.drop_last().contains(e));
                    assert(d.contains(e));
                    let j = choose|j: int| 0 <= j < d.len() && d[j] == e;
                    assert(w[j] == d[j]);
                } else {
                    assert(w[w.len() - 1] == e);
                }
            }
            if w.contains(e) {
                let j = choose|j: int| 0 <= j < w.len() && w[j] == e;
                if j < d.len() {
                    assert(d[j] == e);
                    assert(d.contains(e));
                    let k = choose|k: int| 0 <= k < s.drop_last().len() && s.drop_last()[k] == e;
                    assert(s[k] == e);
                } else {
                    assert(s[s.len() - 1] == e);
                }
            }
        }
    }
}

/// Drops from the selection the brushes a subtraction (or its undo, or its
/// redo) takes out of the world, keeping the order of the rest.
pub fn deselect_removed(selection: &mut Vec<u64>, removed: &Vec<u64>)
    ensures
        final(selection)@ == without_entities(old(selection)@, removed@),
{
    let old_sel = selection.clone();
    let mut kept: Vec<u64> = Vec::new();
    let mut i: usize = 0;
    while i < old_sel.len()
        invariant
            i <= old_sel.len(),
            old_sel@ == old(selection)@,
            kept@ == without_entities(old_sel@.take(i as int), removed@),
        decreases old_sel.len() - i,
    {
        let e = old_sel[i];
        let mut gone = false;
        let mut j: usize = 0;
        while j < removed.len()
            invariant
                j <= removed.len(),
                gone <==> exists|k: int| 0 <= k < j && removed@[k] == e,
            decreases removed.len() - j,
        {
            if removed[j] == e {
                gone = true;
            }
            j += 1;
        }
        assert(old_sel@.take(i + 1).drop_last() =~= old_sel@.take(i as int));
        assert(old_sel@.take(i + 1).last() == e);
        if !gone {
            kept.push(e);
        }
        proof {
            if gone {
                assert(kept@ =~= without_entities(old_sel@.take(i as int), removed@) + Seq::<u64>::empty());
            }
        }
        i += 1;
    }
    assert(old_sel@.take(old_sel.len() as int) =~= old_sel@);
    *selection = kept;
}

/// After a subtraction the selection holds none of the brushes it took away,
/// and every other selected brush is still selected.
pub proof fn law_deselect_removed(selection: Seq<u64>, removed: Seq<u64>, e: u64)
    ensures
        removed.contains(e) ==> !without_entities(selection, removed).contains(e),
        selection.contains(e) && !removed.contains(e) ==> without_entities(selection, removed).contains(e),
{
    lemma_without_entities(selection, removed);
}

/// Whether a fragment a subtraction leaves is kept as a brush: it has at least
/// four corners, and at least four faces once degenerate ones are dropped.
pub fn fragment_kept(corner_count: usize, clean_face_count: usize) -> (r: bool)
    ensures
        r == (corner_count >= 4 && clean_face_count >= 4),
{
    corner_count >= 4 && clean_face_count >= 4
}

// ---------------------------------------------------------------------------
// Face materials and the preview look
// ---------------------------------------------------------------------------

/// The material a brush face is drawn with.
#[derive(Debug, Clone, Copy, PartialEq, Eq, Structural)]
pub enum FaceMaterial {
    /// The material made for the face's texture.
    Textured,
    /// A slot of the plain palette, or of its see-through preview twin.
    Palette { preview: bool, slot: usize },
}

/// The palette slot a face asks for, or the first one when the palette has
/// no such slot.
pub open spec fn palette_slot(material_index: usize, palette_len: usize) -> usize {
    if material_index < palette_len {
        material_index
    } else {
        0
    }
}

/// The material a face is drawn with: its texture's material when the face
/// has a texture whose material is made, the first plain slot when that
/// material is not made yet; an untextured face takes its slot of the preview
/// palette (`preview_len` slots) while the brush is being previewed, else of
/// the plain palette (`plain_len` slots), the first slot when the palette has
/// no such slot. The palette a face falls back on must have a first slot.
pub fn face_material(
    has_texture: bool,
    texture_ready: bool,
    material_index: usize,
    plain_len: usize,
    preview_len: usize,
    preview: bool,
) -> (r: FaceMaterial)
    requires
        has_texture && !texture_ready ==> plain_len > 0,
        !has_texture ==> (if preview { preview_len } else { plain_len }) > 0,
    ensures
        r == (if has_texture {
            if texture_ready {
                FaceMaterial::Textured
            } else {
                FaceMaterial::Palette { preview: false, slot: 0 }
            }
        } else {
            FaceMaterial::Palette {
                preview,
                slot: palette_slot(material_index, if preview { preview_len } else { plain_len }),
            }
        }),
        r matches FaceMaterial::Palette { preview: p, slot } ==> slot < (if p { preview_len } else { plain_len }),
{
    if has_texture {
        if texture_ready {
            FaceMaterial::Textured
        } else {
            FaceMaterial::Palette { preview: false, slot: 0 }
        }
    } else {
        let len = if preview {
            preview_len
        } else {
            plain_len
        };
        let slot = if material_index < len {
            material_index
        } else {
            0
        };
        FaceMaterial::Palette { preview, slot }
    }
}

/// The brush drawn with the preview look: the edited brush while any of its
/// parts is dragged, else the brush a drawing is being added to.
pub fn preview_target(dragging: bool, edited: Option<u64>, append_target: Option<u64>) -> (r: Option<u64>)
    ensures
        r == (if dragging {
            edited
        } else {
            append_target
        }),
{
    if dragging {
        edited
    } else {
        append_target
    }
}

/// How the preview marks change: the marked brushes other than the target
/// lose the mark, and the target gains it unless it has it.
pub fn preview_marks(marked: &Vec<u64>, target: Option<u64>) -> (r: (Vec<u64>, Option<u64>))
    ensures
        r.0@ == without_entities(marked@, match target {
            Some(t) => seq![t],
            None => Seq::empty(),
        }),
        r.1 == (match target {
            Some(t) => if marked@.contains(t) {
                None
            } else {
                Some(t)
            },
            None => None,
        }),
{
    let keep: Vec<u64> = match target {
        Some(t) => vec![t],
        None => Vec::new(),
    };
    let mut lose = marked.clone();
    deselect_removed(&mut lose, &keep);
    proof {
        match target {
            Some(t) => assert(keep@ =~= seq![t]),
            None => assert(keep@ =~= Seq::<u64>::empty()),
        }
    }
    let gain = match target {
        Some(t) => {
            let mut found = false;
            let mut i: usize = 0;
            while i < marked.len()
                invariant
                    i <= marked.len(),
                    found <==> exists|k: int| 0 <= k < i && marked@[k] == t,
                decreases marked.len() - i,
            {
                if marked[i] == t {
                    found = true;
                }
                i += 1;
            }
            if found {
                None
            } else {
                Some(t)
            }
        },
        None => None,
    };
    (lose, gain)
}

/// After the preview marks change, exactly the target carries the mark: a
/// brush stays or becomes marked if and only if it is the target.
pub proof fn law_preview_marks(marked: Seq<u64>, target: Option<u64>, e: u64)
    ensures
        ({
            let others = match target {
                Some(t) => seq![t],
                None => Seq::empty(),
            };
            let lose = without_entities(marked, others);
            let gain = match target {
                Some(t) => if marked.contains(t) {
                    None
                } else {
                    Some(t)
                },
                None => None,
            };
            ((marked.contains(e) && !lose.contains(e)) || gain == Some(e)) <==> target == Some(e)
        }),
{
    let others = match target {
        Some(t) => seq![t],
        None => Seq::<u64>::empty(),
    };
    lemma_without_entities(marked, others);
    if others.contains(e) {
        assert(target == Some(e));
    }
    if target == Some(e) {
        assert(others[0] == e);
    }
}

} // verus!
