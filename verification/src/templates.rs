//! Entity templates: the file a template is saved to, and which of the
//! entities a template brings into the world are its roots.

use vstd::prelude::*;

use crate::text::{alphanumeric, char_is_alphanumeric, chars_of, string_of, trim, trim_spec};

verus! {

/// The entity the save-as-template dialog will save, once a name is given.
pub struct PendingTemplateSave {
    pub entity: Option<u64>,
}

impl PendingTemplateSave {
    /// Nothing waiting to be saved.
    pub fn new() -> (r: Self)
        ensures
            r.entity is None,
    {
        PendingTemplateSave { entity: None }
    }
}

/// What a character of a template's name becomes in its file name: letters,
/// digits, `-`, `_` and spaces stay; anything else becomes `_`.
pub open spec fn file_char(c: char) -> char {
    if alphanumeric(c) || c == '-' || c == '_' || c == ' ' {
        c
    } else {
        '_'
    }
}

/// A name made safe for a file name: each character mapped, then trimmed.
pub open spec fn sanitized(name: Seq<char>) -> Seq<char> {
    trim_spec(name.map_values(|c: char| file_char(c)))
}

/// A name made safe for a file name: letters, digits, hyphens, underscores
/// and spaces are kept, anything else becomes `_`, and the ends are trimmed.
pub fn sanitize_filename(name: &str) -> (r: String)
    ensures
        r@ == sanitized(name@),
{
    let v = chars_of(name);
    let mut out: Vec<char> = Vec::new();
    let mut i: usize = 0;
    while i < v.len()
        invariant
            i <= v.len(),
            v@ == name@,
            out@ == v@.take(i as int).map_values(|c: char| file_char(c)),
        decreases v.len() - i,
    {
        let c = v[i];
        let kept = if char_is_alphanumeric(c) || c == '-' || c == '_' || c == ' ' {
            c
        } else {
            '_'
        };
        out.push(kept);
        assert(v@.take(i + 1) =~= v@.take(i as int).push(c));
        i += 1;
    }
    assert(v@.take(v.len() as int) =~= v@);
    let mapped = string_of(&out);
    trim(mapped.as_str())
}

/// The file a template named `name` is saved to.
pub open spec fn template_path_spec(name: Seq<char>) -> Seq<char> {
    "assets/templates/"@ + sanitized(name) + ".template.json"@
}

/// The file a template named `name` is saved to, under the templates folder.
pub fn template_path(name: &str) -> (r: String)
    ensures
        r@ == template_path_spec(name@),
{
    let safe = sanitize_filename(name);
    let mut v = chars_of("assets/templates/");
    let mut s = chars_of(safe.as_str());
    let mut tail = chars_of(".template.json");
    v.append(&mut s);
    v.append(&mut tail);
    string_of(&v)
}

/// Whether the entity at `i` of a template's entities is one of its roots:
/// it has no parent, or a parent outside the template.
pub open spec fn template_root(es: Seq<(u64, Option<u64>)>, i: int) -> bool {
    match es[i].1 {
        None => true,
        Some(p) => forall|j: int| 0 <= j < es.len() ==> (#[trigger] es[j]).0 != p,
    }
}

/// The roots among the first `n` entities, in their order.
pub open spec fn roots_upto(es: Seq<(u64, Option<u64>)>, n: int) -> Seq<u64>
    decreases n,
{
    if n <= 0 {
        Seq::empty()
    } else {
        roots_upto(es, n - 1) + if template_root(es, n - 1) {
            seq![es[n - 1].0]
        } else {
            Seq::empty()
        }
    }
}

/// The roots of the entities a template brought into the world, each given
/// with its parent, if any: those whose parent is not among them, in the
/// order given.
pub fn template_roots(entities: &Vec<(u64, Option<u64>)>) -> (r: Vec<u64>)
    ensures
        r@ == roots_upto(entities@, entities@.len() as int),
{
    let mut r: Vec<u64> = Vec::new();
    let mut i: usize = 0;
    while i < entities.len()
        invariant
            i <= entities.len(),
            r@ == roots_upto(entities@, i as int),
        decreases entities.len() - i,
    {
        let root = match entities[i].1 {
            None => true,
            Some(p) => {
                let mut inside = false;
                let mut j: usize = 0;
                while j < entities.len()
                    invariant
                        j <= entities.len(),
                        inside <==> exists|k: int| 0 <= k < j && (#[trigger] entities@[k]).0 == p,
                    decreases entities.len() - j,
                {
                    if entities[j].0 == p {
                        inside = true;
                    }
                    j += 1;
                }
                !inside
            },
        };
        assert(root == template_root(entities@, i as int));
        if root {
            r.push(entities[i].0);
        }
        proof {
            let next = roots_upto(entities@, i as int);
            if root {
                assert(r@ =~= next + seq![entities@[i as int].0]);
            } else {
                assert(r@ =~= next + Seq::<u64>::empty());
            }
        }
        i += 1;
    }
    r
}

/// Every entity a template brings in is one of its roots or hangs under
/// another of its entities, so moving the roots moves the whole template.
pub proof fn law_template_hangs_from_roots(es: Seq<(u64, Option<u64>)>, i: int)
    requires
        0 <= i < es.len(),
    ensures
        template_root(es, i) || exists|j: int| 0 <= j < es.len() && Some((#[trigger] es[j]).0) == es[i].1,
{
    if !template_root(es, i) {
        let p = es[i].1.unwrap();
        let j = choose|j: int| 0 <= j < es.len() && !((#[trigger] es[j]).0 != p);
        assert(Some(es[j].0) == es[i].1);
    }
}

} // verus!
