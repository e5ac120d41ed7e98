//! The scene hierarchy panel: where a dragged row may be dropped, which rows a
//! filter leaves showing, and the small decisions its rows make.
//!
//! Entities are named by their 64-bit ids; the panel's tree rows by their
//! position in the list of rows.

use std::collections::HashMap;

use vstd::prelude::*;

use crate::text::{
    chars_of, contains_chars, contains_spec, lowercase_of, str_eq, string_of, to_lowercase,
    trim_chars, trim_spec,
};

verus! {

broadcast use vstd::std_specs::hash::group_hash_axioms;

// ---------------------------------------------------------------------------
// The parent links of the scene
// ---------------------------------------------------------------------------

/// The entity `k` steps up from `x` (`x` itself at 0), if the chain of parents
/// reaches that far.
pub open spec fn ancestor_at(parents: Map<u64, u64>, x: u64, k: nat) -> Option<u64>
    decreases k,
{
    if k == 0 {
        Some(x)
    } else {
        match ancestor_at(parents, x, (k - 1) as nat) {
            Some(y) => if parents.contains_key(y) {
                Some(parents[y])
            } else {
                None
            },
            None => None,
        }
    }
}

/// Whether `a` is a proper ancestor of `x`.
pub open spec fn is_ancestor(parents: Map<u64, u64>, a: u64, x: u64) -> bool {
    exists|k: nat| k >= 1 && #[trigger] ancestor_at(parents, x, k) == Some(a)
}

/// The parent links form a forest: some rank falls along every link, so no
/// chain of parents comes back on itself.
pub open spec fn is_forest(parents: Map<u64, u64>) -> bool {
    exists|rank: spec_fn(u64) -> nat| #[trigger] ranked_by(parents, rank)
}

/// `rank` falls along every parent link.
pub open spec fn ranked_by(parents: Map<u64, u64>, rank: spec_fn(u64) -> nat) -> bool {
    forall|c: u64| #[trigger] parents.contains_key(c) ==> rank(parents[c]) < rank(c)
}

pub proof fn lemma_ancestor_none_stays(parents: Map<u64, u64>, x: u64, k: nat, m: nat)
    requires
        ancestor_at(parents, x, k) is None,
        k <= m,
    ensures
        ancestor_at(parents, x, m) is None,
    decreases m - k,
{
    if k < m {
        lemma_ancestor_none_stays(parents, x, k, (m - 1) as nat);
    }
}

/// How dropping one row on another reparents the scene: `entity` leaves
/// `old_parent` for `new_parent`, `None` being the scene's root.
#[derive(PartialEq, Eq, Structural, Debug, Clone, Copy)]
pub struct Reparent {
    pub entity: u64,
    pub old_parent: Option<u64>,
    pub new_parent: Option<u64>,
}

/// The parent of `e`, if it has one.
pub fn parent_of(parents: &HashMap<u64, u64>, e: u64) -> (r: Option<u64>)
    ensures
        r == (if parents@.contains_key(e) {
            Some(parents@[e])
        } else {
            None::<u64>
        }),
{
    match parents.get(&e) {
        Some(p) => Some(*p),
        None => None,
    }
}

/// Whether `dragged` may become a child of `target`: not onto itself, and
/// not under one of its own descendants, which would close a cycle.
pub fn can_drop_on(parents: &HashMap<u64, u64>, dragged: u64, target: u64) -> (r: bool)
    requires
        is_forest(parents@),
    ensures
        r == (dragged != target && !is_ancestor(parents@, dragged, target)),
{
    if dragged == target {
        return false;
    }
    let ghost m = parents@;
    let ghost rank = choose|rank: spec_fn(u64) -> nat| ranked_by(m, rank);
    let mut current = target;
    let ghost mut steps: nat = 0;
    loop
        invariant
            m == parents@,
            dragged != target,
            ranked_by(m, rank),
            ancestor_at(m, target, steps) == Some(current),
            forall|k: nat| 1 <= k <= steps ==> #[trigger] ancestor_at(m, target, k) != Some(dragged),
        decreases rank(current),
    {
        match parent_of(parents, current) {
            None => {
                proof {
                    assert(ancestor_at(m, target, steps + 1) is None);
                    assert forall|k: nat| k >= 1 implies #[trigger] ancestor_at(m, target, k) != Some(
                        dragged,
                    ) by {
                        if k > steps {
                            lemma_ancestor_none_stays(m, target, steps + 1, k);
                        }
                    }
                    assert(!is_ancestor(m, dragged, target));
                }
                return true;
            },
            Some(p) => {
                assert(ancestor_at(m, target, steps + 1) == Some(p));
                if p == dragged {
                    return false;
                }
                current = p;
                proof {
                    steps = steps + 1;
                }
            },
        }
    }
}

/// What dropping the row of `dragged` on the row of `target` does: nothing
/// when the move would put an entity under itself, else a reparent under
/// `target` that remembers the parent it left.
pub fn drop_on_row(parents: &HashMap<u64, u64>, dragged: u64, target: u64) -> (r: Option<Reparent>)
    requires
        is_forest(parents@),
    ensures
        r is Some <==> (dragged != target && !is_ancestor(parents@, dragged, target)),
        r matches Some(m) ==> m.entity == dragged && m.new_parent == Some(target) && m.old_parent == (
        if parents@.contains_key(dragged) {
            Some(parents@[dragged])
        } else {
            None::<u64>
        }),
{
    if !can_drop_on(parents, dragged, target) {
        return None;
    }
    Some(Reparent { entity: dragged, old_parent: parent_of(parents, dragged), new_parent: Some(target) })
}

/// What dropping the row of `dragged` on the panel's root does: a move to
/// the scene's root, for an entity that has a parent to leave.
pub fn drop_on_root(parents: &HashMap<u64, u64>, dragged: u64) -> (r: Option<Reparent>)
    ensures
        r is Some <==> parents@.contains_key(dragged),
        r matches Some(m) ==> m.entity == dragged && m.new_parent is None && m.old_parent == Some(
            parents@[dragged],
        ),
{
    match parent_of(parents, dragged) {
        Some(p) => Some(Reparent { entity: dragged, old_parent: Some(p), new_parent: None }),
        None => None,
    }
}

/// The parent links after a reparent has been applied.
pub open spec fn applied(parents: Map<u64, u64>, m: Reparent) -> Map<u64, u64> {
    match m.new_parent {
        Some(p) => parents.insert(m.entity, p),
        None => parents.remove(m.entity),
    }
}

/// A drop the panel accepts keeps the scene a forest: the links after the
/// move still have a rank falling along every one of them.
pub proof fn law_drop_keeps_forest(parents: Map<u64, u64>, dragged: u64, target: u64)
    requires
        is_forest(parents),
        dragged != target,
        !is_ancestor(parents, dragged, target),
    ensures
        is_forest(applied(parents, Reparent { entity: dragged, old_parent: None, new_parent: Some(target) })),
{
    let rank = choose|rank: spec_fn(u64) -> nat| ranked_by(parents, rank);
    let after = parents.insert(dragged, target);
    // Every entity under `dragged` (itself included) is lifted above `target`
    // by the height of `target`'s chain; nothing else moves.
    let below = |x: u64| exists|k: nat| #[trigger] ancestor_at(parents, x, k) == Some(dragged);
    let lift = rank(target) + 1;
    let new_rank = |x: u64| if below(x) { rank(x) + lift } else { rank(x) };
    assert forall|c: u64| #[trigger] after.contains_key(c) implies new_rank(after[c]) < new_rank(c) by {
        assert(ranked_by(parents, rank));
        if c == dragged {
            assert(ancestor_at(parents, dragged, 0) == Some(dragged));
            assert(below(dragged));
            if below(target) {
                let k = choose|k: nat| #[trigger] ancestor_at(parents, target, k) == Some(dragged);
                if k == 0 {
                } else {
                    assert(is_ancestor(parents, dragged, target));
                }
            }
        } else {
            assert(parents.contains_key(c));
            assert(after[c] == parents[c]);
            let p = parents[c];
            if below(p) {
                let k = choose|k: nat| #[trigger] ancestor_at(parents, p, k) == Some(dragged);
                lemma_ancestor_shift(parents, c, k);
                assert(ancestor_at(parents, c, k + 1) == Some(dragged));
                assert(below(c));
            }
            if below(c) && !below(p) {
                let k = choose|k: nat| #[trigger] ancestor_at(parents, c, k) == Some(dragged);
                if k == 0 {
                } else {
                    lemma_ancestor_shift(parents, c, (k - 1) as nat);
                    assert(ancestor_at(parents, p, (k - 1) as nat) == Some(dragged));
                }
            }
        }
    }
    assert(ranked_by(after, new_rank));
}

/// One step up, then `k` more, is `k + 1` steps up.
pub proof fn lemma_ancestor_shift(parents: Map<u64, u64>, c: u64, k: nat)
    requires
        parents.contains_key(c),
    ensures
        ancestor_at(parents, c, k + 1) == ancestor_at(parents, parents[c], k),
    decreases k,
{
    if k > 0 {
        lemma_ancestor_shift(parents, c, (k - 1) as nat);
        assert(ancestor_at(parents, c, k) == ancestor_at(parents, parents[c], (k - 1) as nat));
        assert(ancestor_at(parents, c, k + 1) == match ancestor_at(parents, c, k) {
            Some(y) => if parents.contains_key(y) {
                Some(parents[y])
            } else {
                None
            },
            None => None,
        });
    } else {
        assert(ancestor_at(parents, c, 0) == Some(c));
        assert(ancestor_at(parents, c, 1) == Some(parents[c]));
    }
}

} // verus!

verus! {

// ---------------------------------------------------------------------------
// Filtering the rows
// ---------------------------------------------------------------------------

/// One row of the hierarchy tree: the label it shows and the row it is
/// nested under, if any.
pub struct TreeRow {
    pub label: String,
    pub parent: Option<usize>,
}

/// The row `k` levels up from row `j` (`j` itself at 0), if the rows nest
/// that deep.
pub open spec fn row_up(rows: Seq<TreeRow>, j: int, k: nat) -> Option<int>
    decreases k,
{
    if k == 0 {
        Some(j)
    } else {
        match row_up(rows, j, (k - 1) as nat) {
            Some(i) => if 0 <= i < rows.len() {
                match rows[i].parent {
                    Some(p) => Some(p as int),
                    None => None,
                }
            } else {
                None
            },
            None => None,
        }
    }
}

/// `rank` falls from every row to the row it is nested under.
pub open spec fn rows_ranked_by(rows: Seq<TreeRow>, rank: spec_fn(int) -> nat) -> bool {
    forall|i: int|
        0 <= i < rows.len() && #[trigger] rows[i].parent is Some ==> rank(rows[i].parent.unwrap() as int)
            < rank(i)
}

/// The rows nest properly: each parent is a row, and no row is nested, however
/// deeply, under itself.
pub open spec fn rows_well_nested(rows: Seq<TreeRow>) -> bool {
    &&& forall|i: int|
        0 <= i < rows.len() && #[trigger] rows[i].parent is Some ==> rows[i].parent.unwrap()
            < rows.len()
    &&& exists|rank: spec_fn(int) -> nat| #[trigger] rows_ranked_by(rows, rank)
}

/// The text a filter field holds, as the rows are matched against it.
pub open spec fn filter_key(filter: Seq<char>) -> Seq<char> {
    lowercase_of(trim_spec(filter))
}

/// Whether row `j`'s label matches the filter: the filter, trimmed and in
/// lower case, occurs in the lower-case label.
pub open spec fn row_matches(rows: Seq<TreeRow>, key: Seq<char>, j: int) -> bool {
    contains_spec(lowercase_of(rows[j].label@), key)
}

/// Whether row `i` shows under the filter: an empty filter shows every row;
/// otherwise a row shows when it matches or when a matching row is nested
/// under it, so that every match can be reached.
pub open spec fn row_shows(rows: Seq<TreeRow>, filter: Seq<char>, i: int) -> bool {
    filter_key(filter).len() == 0 || exists|j: int, k: nat|
        0 <= j < rows.len() && row_matches(rows, filter_key(filter), j) && #[trigger] row_up(
            rows,
            j,
            k,
        ) == Some(i)
}

pub proof fn lemma_row_up_none_stays(rows: Seq<TreeRow>, j: int, k: nat, m: nat)
    requires
        row_up(rows, j, k) is None,
        k <= m,
    ensures
        row_up(rows, j, m) is None,
    decreases m - k,
{
    if k < m {
        lemma_row_up_none_stays(rows, j, k, (m - 1) as nat);
    }
}

/// Which rows show under `filter`, one flag per row.
pub fn filter_rows(rows: &Vec<TreeRow>, filter: &str) -> (shown: Vec<bool>)
    requires
        rows_well_nested(rows@),
    ensures
        shown@.len() == rows@.len(),
        forall|i: int| 0 <= i < rows@.len() ==> #[trigger] shown@[i] == row_shows(rows@, filter@, i),
{
    let n = rows.len();
    let trimmed = string_of(&trim_chars(&chars_of(filter)));
    let key = chars_of(to_lowercase(trimmed.as_str()).as_str());
    let ghost fk = filter_key(filter@);
    assert(key@ == fk);
    let mut shown: Vec<bool> = Vec::new();
    if key.len() == 0 {
        let mut i: usize = 0;
        while i < n
            invariant
                i <= n,
                n == rows@.len(),
                shown@.len() == i,
                forall|k: int| 0 <= k < i ==> shown@[k],
            decreases n - i,
        {
            shown.push(true);
            i += 1;
        }
        return shown;
    }
    let mut i: usize = 0;
    while i < n
        invariant
            i <= n,
            n == rows@.len(),
            shown@.len() == i,
            forall|k: int| 0 <= k < i ==> !shown@[k],
        decreases n - i,
    {
        shown.push(false);
        i += 1;
    }
    let ghost rank = choose|rank: spec_fn(int) -> nat| rows_ranked_by(rows@, rank);
    let mut j: usize = 0;
    while j < n
        invariant
            j <= n,
            n == rows@.len(),
            shown@.len() == n,
            key@ == fk,
            fk.len() > 0,
            rows_well_nested(rows@),
            rows_ranked_by(rows@, rank),
            forall|i: int|
                0 <= i < n ==> (#[trigger] shown@[i] <==> exists|j2: int, k: nat|
                    0 <= j2 < j && row_matches(rows@, fk, j2) && #[trigger] row_up(rows@, j2, k)
                        == Some(i)),
        decreases n - j,
    {
        let label = chars_of(to_lowercase(rows[j].label.as_str()).as_str());
        if contains_chars(&label, &key) {
            let mut cur: usize = j;
            let ghost mut steps: nat = 0;
            shown.set(cur, true);
            proof {
                assert(row_up(rows@, j as int, 0) == Some(j as int));
            }
            loop
                invariant
                    j < n,
                    n == rows@.len(),
                    shown@.len() == n,
                    cur < n,
                    row_matches(rows@, fk, j as int),
                    rows_well_nested(rows@),
                    rows_ranked_by(rows@, rank),
                    row_up(rows@, j as int, steps) == Some(cur as int),
                    forall|i: int|
                        0 <= i < n ==> (#[trigger] shown@[i] <==> (exists|j2: int, k: nat|
                            0 <= j2 < j && row_matches(rows@, fk, j2) && #[trigger] row_up(
                                rows@,
                                j2,
                                k,
                            ) == Some(i)) || exists|k: nat|
                            k <= steps && #[trigger] row_up(rows@, j as int, k) == Some(i)),
                ensures
                    forall|i: int|
                        0 <= i < n ==> (#[trigger] shown@[i] <==> (exists|j2: int, k: nat|
                            0 <= j2 < j && row_matches(rows@, fk, j2) && #[trigger] row_up(
                                rows@,
                                j2,
                                k,
                            ) == Some(i)) || exists|k: nat| #[trigger] row_up(rows@, j as int, k) == Some(i)),
                decreases rank(cur as int),
            {
                match rows[cur].parent {
                    None => {
                        proof {
                            assert(row_up(rows@, j as int, steps + 1) is None);
                            assert forall|k: nat| k > steps implies #[trigger] row_up(
                                rows@,
                                j as int,
                                k,
                            ) is None by {
                                lemma_row_up_none_stays(rows@, j as int, steps + 1, k);
                            }
                        }
                        break;
                    },
                    Some(p) => {
                        proof {
                            assert(rows@[cur as int].parent is Some);
                            assert(row_up(rows@, j as int, steps + 1) == Some(p as int));
                        }
                        let ghost before = shown@;
                        shown.set(p, true);
                        cur = p;
                        proof {
                            steps = steps + 1;
                            assert forall|i: int| 0 <= i < n implies (#[trigger] shown@[i] <==> (
                                exists|j2: int, k: nat|
                                    0 <= j2 < j && row_matches(rows@, fk, j2) && #[trigger] row_up(
                                        rows@,
                                        j2,
                                        k,
                                    ) == Some(i)) || exists|k: nat|
                                k <= steps && #[trigger] row_up(rows@, j as int, k) == Some(i)) by {
                                if i != p {
                                    assert(shown@[i] == before[i]);
                                    if exists|k: nat| k <= steps && #[trigger] row_up(rows@, j as int, k) == Some(i) {
                                        let k = choose|k: nat| k <= steps && #[trigger] row_up(rows@, j as int, k) == Some(i);
                                        assert(k != steps);
                                    }
                                } else {
                                    assert(row_up(rows@, j as int, steps) == Some(i));
                                }
                            }
                        }
                    },
                }
            }
        } else {
            proof {
                assert forall|i: int|
                    0 <= i < n implies (#[trigger] shown@[i] <==> exists|j2: int, k: nat|
                        0 <= j2 < j + 1 && row_matches(rows@, fk, j2) && #[trigger] row_up(rows@, j2, k)
                            == Some(i)) by {
                    if exists|j2: int, k: nat|
                        0 <= j2 < j + 1 && row_matches(rows@, fk, j2) && #[trigger] row_up(rows@, j2, k)
                            == Some(i) {
                        let (j2, k) = choose|j2: int, k: nat|
                            0 <= j2 < j + 1 && row_matches(rows@, fk, j2) && #[trigger] row_up(
                                rows@,
                                j2,
                                k,
                            ) == Some(i);
                        assert(j2 != j);
                    }
                }
            }
        }
        j += 1;
    }
    shown
}

} // verus!

verus! {

// ---------------------------------------------------------------------------
// Small decisions of the panel
// ---------------------------------------------------------------------------

/// An entity's visibility, as the panel's eye icon reads and writes it.
#[derive(PartialEq, Eq, Structural, Debug, Clone, Copy)]
pub enum Visibility {
    Inherited,
    Hidden,
    Visible,
}

/// What clicking the eye icon makes of an entity's visibility: a hidden
/// entity goes back to inheriting its parent's, anything else is hidden.
pub fn toggled_visibility(current: Visibility) -> (r: Visibility)
    ensures
        r == (if current == Visibility::Hidden {
            Visibility::Inherited
        } else {
            Visibility::Hidden
        }),
{
    match current {
        Visibility::Hidden => Visibility::Inherited,
        _ => Visibility::Hidden,
    }
}

/// Clicking the eye twice shows an entity again, as inheriting its parent's
/// visibility; one shown explicitly does not get that back.
pub proof fn law_visibility_toggle_twice(v: Visibility)
    ensures
        ({
            let once = if v == Visibility::Hidden {
                Visibility::Inherited
            } else {
                Visibility::Hidden
            };
            let twice = if once == Visibility::Hidden {
                Visibility::Inherited
            } else {
                Visibility::Hidden
            };
            &&& (v == Visibility::Hidden) == (once != Visibility::Hidden)
            &&& v != Visibility::Hidden ==> twice == Visibility::Inherited
            &&& v == Visibility::Hidden ==> twice == Visibility::Hidden
        }),
{
}

/// The name a template is saved under, from what the dialog's field holds:
/// the text trimmed, or nothing when that leaves it empty.
pub fn template_name_from_input(input: &str) -> (r: Option<String>)
    ensures
        trim_spec(input@).len() == 0 <==> r is None,
        r matches Some(name) ==> name@ == trim_spec(input@),
{
    let t = trim_chars(&chars_of(input));
    if t.len() == 0 {
        None
    } else {
        Some(string_of(&t))
    }
}

/// The selection a right-click on `target`'s row leaves: unchanged when
/// `target` is selected, else `target` alone.
pub fn selection_for_context_menu(selection: &Vec<u64>, target: u64) -> (r: Vec<u64>)
    ensures
        selection@.contains(target) ==> r@ == selection@,
        !selection@.contains(target) ==> r@ == seq![target],
{
    let mut i: usize = 0;
    while i < selection.len()
        invariant
            i <= selection.len(),
            forall|k: int| 0 <= k < i ==> selection@[k] != target,
        decreases selection.len() - i,
    {
        if selection[i] == target {
            return selection.clone();
        }
        i += 1;
    }
    let mut r: Vec<u64> = Vec::new();
    r.push(target);
    assert(r@ =~= seq![target]);
    r
}

/// Whether an inline rename changes the entity's name, and so records an
/// undo entry.
pub fn rename_changes_name(old_name: &str, new_name: &str) -> (r: bool)
    ensures
        r == (old_name@ != new_name@),
{
    !str_eq(old_name, new_name)
}

/// What happens to an entity's tree row when the entity gets a new parent.
#[derive(PartialEq, Eq, Structural, Debug, Clone, Copy)]
pub enum RowMove {
    /// Move the existing row into this container of the parent's row.
    MoveInto(u64),
    /// Drop the row: the parent has none yet, and expanding it later will
    /// make this one again.
    Drop,
    /// Make a row in this container, the parent's children being shown.
    SpawnInto(u64),
    /// Leave it to the parent's first expansion.
    Wait,
}

/// Where an entity's row goes when the entity is reparented, given whether
/// it has a row, the container of the new parent's row, if that row exists,
/// and whether that row's children have been filled in.
pub fn row_move_on_reparent(has_row: bool, parent_container: Option<u64>, parent_populated: bool) -> (r: RowMove)
    ensures
        r == (if has_row {
            match parent_container {
                Some(c) => RowMove::MoveInto(c),
                None => RowMove::Drop,
            }
        } else {
            match parent_container {
                Some(c) => if parent_populated {
                    RowMove::SpawnInto(c)
                } else {
                    RowMove::Wait
                },
                None => RowMove::Wait,
            }
        }),
{
    match parent_container {
        Some(c) => if has_row {
            RowMove::MoveInto(c)
        } else if parent_populated {
            RowMove::SpawnInto(c)
        } else {
            RowMove::Wait
        },
        None => if has_row {
            RowMove::Drop
        } else {
            RowMove::Wait
        },
    }
}

/// Whether a row's first expansion fills in its children: only when it is
/// expanded and its children are not there yet.
pub fn expansion_populates(expanded: bool, populated: bool) -> (r: bool)
    ensures
        r == (expanded && !populated),
{
    expanded && !populated
}

// ---------------------------------------------------------------------------
// Rows: icons, children, and the context menu
// ---------------------------------------------------------------------------

/// The kind of entity a row's icon shows.
#[derive(PartialEq, Eq, Structural, Debug, Clone, Copy)]
pub enum EntityCategory {
    Camera,
    Light,
    Mesh,
    Scene,
    Entity,
}

/// The components that decide a row's icon.
#[derive(Debug, Clone, Copy)]
pub struct CategoryMarks {
    pub camera: bool,
    pub point_light: bool,
    pub directional_light: bool,
    pub spot_light: bool,
    pub mesh: bool,
    pub scene_root: bool,
}

/// The kind of entity a row shows: a camera before a light, a light before a
/// mesh, a mesh before a scene, and a plain entity otherwise.
pub fn classify_entity(marks: CategoryMarks) -> (r: EntityCategory)
    ensures
        r == (if marks.camera {
            EntityCategory::Camera
        } else if marks.point_light || marks.directional_light || marks.spot_light {
            EntityCategory::Light
        } else if marks.mesh {
            EntityCategory::Mesh
        } else if marks.scene_root {
            EntityCategory::Scene
        } else {
            EntityCategory::Entity
        }),
{
    if marks.camera {
        EntityCategory::Camera
    } else if marks.point_light || marks.directional_light || marks.spot_light {
        EntityCategory::Light
    } else if marks.mesh {
        EntityCategory::Mesh
    } else if marks.scene_root {
        EntityCategory::Scene
    } else {
        EntityCategory::Entity
    }
}

/// Whether a row gets an expander: some child of its entity is neither one
/// of the editor's own entities nor hidden from the panel, each child given
/// as `(editor's own, hidden)`.
pub fn has_visible_children(children: &Vec<(bool, bool)>) -> (r: bool)
    ensures
        r == exists|i: int| 0 <= i < children@.len() && !(#[trigger] children@[i]).0 && !children@[i].1,
{
    let mut i: usize = 0;
    while i < children.len()
        invariant
            i <= children.len(),
            forall|k: int| 0 <= k < i ==> (#[trigger] children@[k]).0 || children@[k].1,
        decreases children.len() - i,
    {
        if !children[i].0 && !children[i].1 {
            return true;
        }
        i += 1;
    }
    false
}

/// What can be added under an entity from its row's menu.
#[derive(PartialEq, Eq, Structural, Debug, Clone, Copy)]
pub enum ChildTemplate {
    Cube,
    Sphere,
    PointLight,
    Empty,
}

/// What a pick in a row's context menu does.
#[derive(PartialEq, Eq, Structural, Debug, Clone, Copy)]
pub enum HierarchyAction {
    /// Start renaming the row's entity in place.
    Rename(u64),
    /// Duplicate the selection.
    Duplicate,
    /// Delete the selection.
    Delete,
    /// Make a new entity and put it under this one.
    AddChild(ChildTemplate, u64),
    /// Ask for a name and save this entity as a template.
    SaveTemplate(u64),
    /// Nothing.
    Nothing,
}

/// The action a context-menu pick names, for the row's entity `target`:
/// the selection-wide ones need no target, the others do nothing without one.
pub open spec fn context_action_spec(action: Seq<char>, target: Option<u64>) -> HierarchyAction {
    if action == "hierarchy.duplicate"@ {
        HierarchyAction::Duplicate
    } else if action == "hierarchy.delete"@ {
        HierarchyAction::Delete
    } else {
        match target {
            None => HierarchyAction::Nothing,
            Some(t) => if action == "hierarchy.rename"@ {
                HierarchyAction::Rename(t)
            } else if action == "hierarchy.add_cube"@ {
                HierarchyAction::AddChild(ChildTemplate::Cube, t)
            } else if action == "hierarchy.add_sphere"@ {
                HierarchyAction::AddChild(ChildTemplate::Sphere, t)
            } else if action == "hierarchy.add_light"@ {
                HierarchyAction::AddChild(ChildTemplate::PointLight, t)
            } else if action == "hierarchy.add_empty"@ {
                HierarchyAction::AddChild(ChildTemplate::Empty, t)
            } else if action == "hierarchy.save_template"@ {
                HierarchyAction::SaveTemplate(t)
            } else {
                HierarchyAction::Nothing
            },
        }
    }
}

/// Each menu entry does what it names: with a row's entity `t`, rename
/// renames `t`, the four add-child entries put a new cube, sphere, point
/// light or empty entity under `t`, and save-as-template saves `t`;
/// duplicate and delete act on the selection with or without a row; with no
/// row, the entries that need one do nothing.
pub proof fn law_context_actions(t: u64)
    ensures
        context_action_spec("hierarchy.rename"@, Some(t)) == HierarchyAction::Rename(t),
        context_action_spec("hierarchy.add_cube"@, Some(t)) == HierarchyAction::AddChild(ChildTemplate::Cube, t),
        context_action_spec("hierarchy.add_sphere"@, Some(t)) == HierarchyAction::AddChild(ChildTemplate::Sphere, t),
        context_action_spec("hierarchy.add_light"@, Some(t)) == HierarchyAction::AddChild(
            ChildTemplate::PointLight,
            t,
        ),
        context_action_spec("hierarchy.add_empty"@, Some(t)) == HierarchyAction::AddChild(ChildTemplate::Empty, t),
        context_action_spec("hierarchy.save_template"@, Some(t)) == HierarchyAction::SaveTemplate(t),
        context_action_spec("hierarchy.duplicate"@, Some(t)) == HierarchyAction::Duplicate,
        context_action_spec("hierarchy.duplicate"@, None) == HierarchyAction::Duplicate,
        context_action_spec("hierarchy.delete"@, Some(t)) == HierarchyAction::Delete,
        context_action_spec("hierarchy.delete"@, None) == HierarchyAction::Delete,
        context_action_spec("hierarchy.rename"@, None) == HierarchyAction::Nothing,
        context_action_spec("hierarchy.add_cube"@, None) == HierarchyAction::Nothing,
        context_action_spec("hierarchy.add_sphere"@, None) == HierarchyAction::Nothing,
        context_action_spec("hierarchy.add_light"@, None) == HierarchyAction::Nothing,
        context_action_spec("hierarchy.add_empty"@, None) == HierarchyAction::Nothing,
        context_action_spec("hierarchy.save_template"@, None) == HierarchyAction::Nothing,
{
    reveal_strlit("hierarchy.rename");
    reveal_strlit("hierarchy.add_cube");
    reveal_strlit("hierarchy.add_sphere");
    reveal_strlit("hierarchy.add_light");
    reveal_strlit("hierarchy.add_empty");
    reveal_strlit("hierarchy.save_template");
    reveal_strlit("hierarchy.duplicate");
    reveal_strlit("hierarchy.delete");
    assert("hierarchy.rename"@.len() != "hierarchy.add_cube"@.len());
    assert("hierarchy.rename"@.len() != "hierarchy.add_sphere"@.len());
    assert("hierarchy.rename"@.len() != "hierarchy.add_light"@.len());
    assert("hierarchy.rename"@.len() != "hierarchy.add_empty"@.len());
    assert("hierarchy.rename"@.len() != "hierarchy.save_template"@.len());
    assert("hierarchy.rename"@.len() != "hierarchy.duplicate"@.len());
    assert("hierarchy.rename"@[10] != "hierarchy.delete"@[10]);
    assert("hierarchy.add_cube"@.len() != "hierarchy.add_sphere"@.len());
    assert("hierarchy.add_cube"@.len() != "hierarchy.add_light"@.len());
    assert("hierarchy.add_cube"@.len() != "hierarchy.add_empty"@.len());
    assert("hierarchy.add_cube"@.len() != "hierarchy.save_template"@.len());
    assert("hierarchy.add_cube"@.len() != "hierarchy.duplicate"@.len());
    assert("hierarchy.add_cube"@.len() != "hierarchy.delete"@.len());
    assert("hierarchy.add_sphere"@.len() != "hierarchy.add_light"@.len());
    assert("hierarchy.add_sphere"@.len() != "hierarchy.add_empty"@.len());
    assert("hierarchy.add_sphere"@.len() != "hierarchy.save_template"@.len());
    assert("hierarchy.add_sphere"@.len() != "hierarchy.duplicate"@.len());
    assert("hierarchy.add_sphere"@.len() != "hierarchy.delete"@.len());
    assert("hierarchy.add_light"@[14] != "hierarchy.add_empty"@[14]);
    assert("hierarchy.add_light"@.len() != "hierarchy.save_template"@.len());
    assert("hierarchy.add_light"@[10] != "hierarchy.duplicate"@[10]);
    assert("hierarchy.add_light"@.len() != "hierarchy.delete"@.len());
    assert("hierarchy.add_empty"@.len() != "hierarchy.save_template"@.len());
    assert("hierarchy.add_empty"@[10] != "hierarchy.duplicate"@[10]);
    assert("hierarchy.add_empty"@.len() != "hierarchy.delete"@.len());
    assert("hierarchy.save_template"@.len() != "hierarchy.duplicate"@.len());
    assert("hierarchy.save_template"@.len() != "hierarchy.delete"@.len());
    assert("hierarchy.duplicate"@.len() != "hierarchy.delete"@.len());
}

/// What a pick in a row's context menu does.
pub fn context_action(action: &str, target: Option<u64>) -> (r: HierarchyAction)
    ensures
        r == context_action_spec(action@, target),
{
    if str_eq(action, "hierarchy.duplicate") {
        return HierarchyAction::Duplicate;
    }
    if str_eq(action, "hierarchy.delete") {
        return HierarchyAction::Delete;
    }
    let t = match target {
        Some(t) => t,
        None => return HierarchyAction::Nothing,
    };
    if str_eq(action, "hierarchy.rename") {
        HierarchyAction::Rename(t)
    } else if str_eq(action, "hierarchy.add_cube") {
        HierarchyAction::AddChild(ChildTemplate::Cube, t)
    } else if str_eq(action, "hierarchy.add_sphere") {
        HierarchyAction::AddChild(ChildTemplate::Sphere, t)
    } else if str_eq(action, "hierarchy.add_light") {
        HierarchyAction::AddChild(ChildTemplate::PointLight, t)
    } else if str_eq(action, "hierarchy.add_empty") {
        HierarchyAction::AddChild(ChildTemplate::Empty, t)
    } else if str_eq(action, "hierarchy.save_template") {
        HierarchyAction::SaveTemplate(t)
    } else {
        HierarchyAction::Nothing
    }
}

/// The name the save-as-template dialog starts with: the entity's name, or
/// `template` when it has none.
pub fn default_template_name(name: Option<&str>) -> (r: String)
    ensures
        r@ == (match name {
            Some(n) => n@,
            None => "template"@,
        }),
{
    match name {
        Some(n) => n.to_owned(),
        None => "template".to_owned(),
    }
}

/// What a click on a row does to the selection.
#[derive(PartialEq, Eq, Structural, Debug, Clone, Copy)]
pub enum RowClick {
    /// Ctrl-click: add the row's entity to the selection, or take it out.
    Toggle,
    /// A click on a selected row: select nothing.
    Clear,
    /// A click on another row: select its entity alone.
    SelectOnly,
}

/// What a click on a row does to the selection: with Ctrl it toggles the
/// row's entity; otherwise a click on a selected row clears the selection and
/// a click on any other row selects that one alone.
pub fn row_click(ctrl: bool, selected: bool) -> (r: RowClick)
    ensures
        r == (if ctrl {
            RowClick::Toggle
        } else if selected {
            RowClick::Clear
        } else {
            RowClick::SelectOnly
        }),
{
    if ctrl {
        RowClick::Toggle
    } else if selected {
        RowClick::Clear
    } else {
        RowClick::SelectOnly
    }
}

} // verus!
