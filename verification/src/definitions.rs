//! Definition assets: names and files of definitions, the registry of loaded
//! ones, what a rescan of their directories changes, and the creation of new
//! ones.

use vstd::prelude::*;

use crate::text::{
    char_is_ascii_alphanumeric, chars_of, decimal, end_from, is_ascii_alnum, is_ascii_digit, is_ws,
    lead_from, lemma_decimal_digits, lemma_decimal_injective, lemma_lead_from_bounds,
    lemma_trim_no_ws, push_decimal, sort_strings,
    join, join_spec, lex_le, sorted_lex, str_eq, string_of, trim_chars, trim_spec, views,
    is_permutation_of_range, key_before, stable_order, trim,
};

verus! {

// ---------------------------------------------------------------------------
// Names
// ---------------------------------------------------------------------------

/// A character a definition's file stem may hold as it is.
pub open spec fn is_name_char(c: char) -> bool {
    is_ascii_alnum(c) || c == '_' || c == '-' || c == '.'
}

pub open spec fn clean_name_char(c: char) -> char {
    if is_name_char(c) {
        c
    } else {
        '_'
    }
}

/// The name a definition gets when nothing is left of the one asked for.
pub open spec fn fallback_definition_name() -> Seq<char> {
    seq!['d', 'e', 'f', 'i', 'n', 'i', 't', 'i', 'o', 'n']
}

/// `s` trimmed, with every character a file stem cannot hold replaced by `_`.
pub open spec fn clean_name(s: Seq<char>) -> Seq<char> {
    trim_spec(s).map_values(|c: char| clean_name_char(c))
}

/// The file stem a definition name maps to.
pub open spec fn sanitize_name_spec(s: Seq<char>) -> Seq<char> {
    if clean_name(s).len() == 0 {
        fallback_definition_name()
    } else {
        clean_name(s)
    }
}

/// Strip what cannot appear in a file stem, so a definition name always maps
/// to exactly one file.
pub fn sanitize_definition_name(name: &str) -> (r: String)
    ensures
        r@ == sanitize_name_spec(name@),
{
    let v = chars_of(name);
    let t = trim_chars(&v);
    let mut out: Vec<char> = Vec::new();
    let mut i: usize = 0;
    while i < t.len()
        invariant
            i <= t.len(),
            out@ == t@.take(i as int).map_values(|c: char| clean_name_char(c)),
        decreases t.len() - i,
    {
        let c = t[i];
        let kept = char_is_ascii_alphanumeric(c) || c == '_' || c == '-' || c == '.';
        out.push(if kept { c } else { '_' });
        i += 1;
        assert(out@ =~= t@.take(i as int).map_values(|c: char| clean_name_char(c)));
    }
    assert(t@.take(t.len() as int) =~= t@);
    if out.len() == 0 {
        let fallback: Vec<char> = vec!['d', 'e', 'f', 'i', 'n', 'i', 't', 'i', 'o', 'n'];
        assert(fallback@ =~= fallback_definition_name());
        return string_of(&fallback);
    }
    string_of(&out)
}

/// A sanitized name holds only file-stem characters and is never empty.
pub proof fn lemma_sanitized_shape(s: Seq<char>)
    ensures
        sanitize_name_spec(s).len() > 0,
        forall|i: int|
            0 <= i < sanitize_name_spec(s).len() ==> is_name_char(
                #[trigger] sanitize_name_spec(s)[i],
            ),
{
}

/// Sanitizing is idempotent: a sanitized name is already the stem of its own
/// file.
pub proof fn law_sanitize_idempotent(s: Seq<char>)
    ensures
        sanitize_name_spec(sanitize_name_spec(s)) == sanitize_name_spec(s),
{
    let t = sanitize_name_spec(s);
    lemma_sanitized_shape(s);
    assert forall|k: int| 0 <= k < t.len() implies !is_ws(#[trigger] t[k]) by {
        assert(is_name_char(t[k]));
    }
    lemma_trim_no_ws(t);
    assert(clean_name(t) =~= t);
}

} // verus!

verus! {

// ---------------------------------------------------------------------------
// The registry of loaded definitions
// ---------------------------------------------------------------------------

/// A definition loaded from a file, by the name its file stem gives it.
/// `H` is whatever handle the asset store gave the loaded value.
pub struct DefinitionEntry<H> {
    pub kind: String,
    pub name: String,
    pub handle: H,
    pub path: String,
}

/// Every loaded definition, across all registered types.
pub struct DefinitionRegistry<H> {
    pub entries: Vec<DefinitionEntry<H>>,
}

/// Whether an entry is the definition `name` of kind `kind`.
pub open spec fn is_entry<H>(e: DefinitionEntry<H>, kind: Seq<char>, name: Seq<char>) -> bool {
    e.kind@ == kind && e.name@ == name
}

/// Whether two entries stand for the same definition.
pub open spec fn same_key<H>(a: DefinitionEntry<H>, b: DefinitionEntry<H>) -> bool {
    a.kind@ == b.kind@ && a.name@ == b.name@
}

/// No definition is recorded twice.
pub open spec fn unique_keys<H>(es: Seq<DefinitionEntry<H>>) -> bool {
    forall|i: int, j: int|
        0 <= i < j < es.len() ==> !same_key(#[trigger] es[i], #[trigger] es[j])
}

/// `es` without the entries standing for `name` of kind `kind`, in order.
pub open spec fn without<H>(es: Seq<DefinitionEntry<H>>, kind: Seq<char>, name: Seq<char>) -> Seq<
    DefinitionEntry<H>,
>
    decreases es.len(),
{
    if es.len() == 0 {
        Seq::empty()
    } else {
        let rest = without(es.drop_last(), kind, name);
        if is_entry(es.last(), kind, name) {
            rest
        } else {
            rest.push(es.last())
        }
    }
}

/// The names of the entries of kind `kind`, in order.
pub open spec fn names_with_kind<H>(es: Seq<DefinitionEntry<H>>, kind: Seq<char>) -> Seq<Seq<char>>
    decreases es.len(),
{
    if es.len() == 0 {
        Seq::empty()
    } else {
        let rest = names_with_kind(es.drop_last(), kind);
        if es.last().kind@ == kind {
            rest.push(es.last().name@)
        } else {
            rest
        }
    }
}

/// Whether some entry stands for `name` of kind `kind`.
pub open spec fn has_entry<H>(es: Seq<DefinitionEntry<H>>, kind: Seq<char>, name: Seq<char>) -> bool {
    exists|i: int| 0 <= i < es.len() && is_entry(#[trigger] es[i], kind, name)
}

pub proof fn lemma_without_members<H>(es: Seq<DefinitionEntry<H>>, kind: Seq<char>, name: Seq<char>)
    ensures
        without(es, kind, name).len() <= es.len(),
        forall|i: int|
            0 <= i < without(es, kind, name).len() ==> !is_entry(
                #[trigger] without(es, kind, name)[i],
                kind,
                name,
            ),
        forall|i: int|
            0 <= i < without(es, kind, name).len() ==> es.contains(
                #[trigger] without(es, kind, name)[i],
            ),
        forall|i: int|
            0 <= i < es.len() && !is_entry(#[trigger] es[i], kind, name) ==> without(
                es,
                kind,
                name,
            ).contains(es[i]),
    decreases es.len(),
{
    if es.len() > 0 {
        let d = es.drop_last();
        lemma_without_members(d, kind, name);
        let w = without(d, kind, name);
        assert forall|i: int| 0 <= i < without(es, kind, name).len() implies es.contains(
            #[trigger] without(es, kind, name)[i],
        ) by {
            if i < w.len() {
                let x = w[i];
                assert(d.contains(x));
                let k = choose|k: int| 0 <= k < d.len() && d[k] == x;
                assert(es[k] == x);
            } else {
                assert(es[es.len() - 1] == es.last());
            }
        }
        assert forall|i: int| 0 <= i < es.len() && !is_entry(#[trigger] es[i], kind, name) implies without(
            es,
            kind,
            name,
        ).contains(es[i]) by {
            if i < es.len() - 1 {
                assert(d[i] == es[i]);
                assert(w.contains(es[i]));
                let k = choose|k: int| 0 <= k < w.len() && w[k] == es[i];
                if !is_entry(es.last(), kind, name) {
                    assert(w.push(es.last())[k] == es[i]);
                }
            } else {
                assert(w.push(es.last())[w.len() as int] == es[i]);
            }
        }
    }
}

pub proof fn lemma_unique_drop_last<H>(es: Seq<DefinitionEntry<H>>)
    requires
        unique_keys(es),
        es.len() > 0,
    ensures
        unique_keys(es.drop_last()),
        forall|i: int|
            0 <= i < es.len() - 1 ==> !same_key(#[trigger] es.drop_last()[i], es.last()),
{
    assert forall|i: int| 0 <= i < es.len() - 1 implies !same_key(
        #[trigger] es.drop_last()[i],
        es.last(),
    ) by {
        assert(es[i] == es.drop_last()[i]);
        assert(!same_key(es[i], es[es.len() - 1]));
    }
}

/// Dropping entries keeps the keys unique.
pub proof fn lemma_without_unique<H>(es: Seq<DefinitionEntry<H>>, kind: Seq<char>, name: Seq<char>)
    requires
        unique_keys(es),
    ensures
        unique_keys(without(es, kind, name)),
    decreases es.len(),
{
    if es.len() > 0 {
        let d = es.drop_last();
        lemma_unique_drop_last(es);
        lemma_without_unique(d, kind, name);
        lemma_without_members(d, kind, name);
        let w = without(d, kind, name);
        if !is_entry(es.last(), kind, name) {
            let r = w.push(es.last());
            assert forall|i: int, j: int| 0 <= i < j < r.len() implies !same_key(
                #[trigger] r[i],
                #[trigger] r[j],
            ) by {
                if j == w.len() {
                    assert(d.contains(w[i]));
                    let k = choose|k: int| 0 <= k < d.len() && d[k] == w[i];
                    assert(!same_key(d[k], es.last()));
                } else {
                    assert(r[i] == w[i] && r[j] == w[j]);
                }
            }
        }
    }
}

pub proof fn lemma_names_with_kind_members<H>(es: Seq<DefinitionEntry<H>>, kind: Seq<char>)
    ensures
        forall|n: Seq<char>|
            names_with_kind(es, kind).contains(n) <==> has_entry(es, kind, n),
    decreases es.len(),
{
    if es.len() > 0 {
        let d = es.drop_last();
        lemma_names_with_kind_members(d, kind);
        assert forall|n: Seq<char>| names_with_kind(es, kind).contains(n) <==> has_entry(
            es,
            kind,
            n,
        ) by {
            let r = names_with_kind(d, kind);
            if has_entry(es, kind, n) {
                let i = choose|i: int| 0 <= i < es.len() && is_entry(#[trigger] es[i], kind, n);
                if i < es.len() - 1 {
                    assert(is_entry(d[i], kind, n));
                    assert(has_entry(d, kind, n));
                    assert(r.contains(n));
                    let k = choose|k: int| 0 <= k < r.len() && r[k] == n;
                    if es.last().kind@ == kind {
                        assert(r.push(es.last().name@)[k] == n);
                    }
                } else {
                    assert(r.push(es.last().name@)[r.len() as int] == n);
                }
            }
            if names_with_kind(es, kind).contains(n) {
                let k = choose|k: int|
                    0 <= k < names_with_kind(es, kind).len() && names_with_kind(es, kind)[k] == n;
                if k < r.len() {
                    if es.last().kind@ == kind {
                        assert(r.push(es.last().name@)[k] == r[k]);
                    }
                    assert(r.contains(n));
                    assert(has_entry(d, kind, n));
                    let i = choose|i: int| 0 <= i < d.len() && is_entry(#[trigger] d[i], kind, n);
                    assert(es[i] == d[i]);
                } else {
                    assert(is_entry(es[es.len() - 1], kind, n));
                }
            }
        }
    }
}

impl<H> DefinitionRegistry<H> {
    /// The registry holds each definition at most once.
    pub open spec fn well_formed(&self) -> bool {
        unique_keys(self.entries@)
    }

    /// An empty registry.
    pub fn new() -> (r: Self)
        ensures
            r.entries@.len() == 0,
            r.well_formed(),
    {
        DefinitionRegistry { entries: Vec::new() }
    }

    /// The entry for `name` of kind `kind`: the first one recorded, if any.
    pub fn get(&self, kind: &str, name: &str) -> (r: Option<&DefinitionEntry<H>>)
        ensures
            r is None <==> !has_entry(self.entries@, kind@, name@),
            r matches Some(e) ==> exists|i: int|
                0 <= i < self.entries@.len() && self.entries@[i] == *e && is_entry(*e, kind@, name@)
                    && forall|k: int|
                    0 <= k < i ==> !is_entry(#[trigger] self.entries@[k], kind@, name@),
    {
        let mut i: usize = 0;
        while i < self.entries.len()
            invariant
                i <= self.entries.len(),
                forall|k: int| 0 <= k < i ==> !is_entry(#[trigger] self.entries@[k], kind@, name@),
            decreases self.entries.len() - i,
        {
            let e = &self.entries[i];
            if str_eq(e.kind.as_str(), kind) && str_eq(e.name.as_str(), name) {
                return Some(e);
            }
            i += 1;
        }
        None
    }

    /// The names of every loaded definition of a kind, sorted.
    pub fn names_of(&self, kind: &str) -> (r: Vec<String>)
        ensures
            sorted_lex(views(r@)),
            views(r@).to_multiset() == names_with_kind(self.entries@, kind@).to_multiset(),
    {
        let mut names: Vec<String> = Vec::new();
        let mut i: usize = 0;
        while i < self.entries.len()
            invariant
                i <= self.entries.len(),
                views(names@) == names_with_kind(self.entries@.take(i as int), kind@),
            decreases self.entries.len() - i,
        {
            let e = &self.entries[i];
            proof {
                assert(self.entries@.take(i + 1).drop_last() =~= self.entries@.take(i as int));
            }
            if str_eq(e.kind.as_str(), kind) {
                names.push(e.name.clone());
            }
            i += 1;
            assert(views(names@) =~= names_with_kind(self.entries@.take(i as int), kind@));
        }
        assert(self.entries@.take(self.entries.len() as int) =~= self.entries@);
        sort_strings(names)
    }

    /// Drop every entry standing for `name` of kind `kind`, keeping the rest
    /// in order.
    fn retain_other(&mut self, kind: &str, name: &str)
        ensures
            final(self).entries@ == without(old(self).entries@, kind@, name@),
    {
        let ghost orig = self.entries@;
        let mut i: usize = 0;
        let ghost mut j: int = 0;
        while i < self.entries.len()
            invariant
                0 <= j <= orig.len(),
                i <= self.entries.len(),
                self.entries@ == without(orig.take(j), kind@, name@) + orig.skip(j),
                i == without(orig.take(j), kind@, name@).len(),
            decreases self.entries.len() - i,
        {
            let ghost w = without(orig.take(j), kind@, name@);
            proof {
                assert(self.entries@[i as int] == orig[j]);
                assert(orig.take(j + 1).drop_last() =~= orig.take(j));
                assert(orig.take(j + 1).last() == orig[j]);
            }
            let matching = str_eq(self.entries[i].kind.as_str(), kind) && str_eq(
                self.entries[i].name.as_str(),
                name,
            );
            if matching {
                self.entries.remove(i);
                proof {
                    assert(self.entries@ =~= without(orig.take(j + 1), kind@, name@) + orig.skip(
                        j + 1,
                    ));
                }
            } else {
                proof {
                    assert(self.entries@ =~= without(orig.take(j + 1), kind@, name@) + orig.skip(
                        j + 1,
                    ));
                }
                i += 1;
            }
            proof {
                j = j + 1;
            }
        }
        proof {
            if j < orig.len() {
                assert(self.entries@.len() > i);
            }
            assert(orig.take(j) =~= orig);
            assert(orig.skip(j) =~= Seq::<DefinitionEntry<H>>::empty());
            assert(self.entries@ =~= without(orig, kind@, name@));
        }
    }

    /// Record a loaded definition, replacing any entry of the same kind and
    /// name.
    pub fn insert(&mut self, entry: DefinitionEntry<H>)
        ensures
            final(self).entries@ == without(old(self).entries@, entry.kind@, entry.name@).push(
                entry,
            ),
            old(self).well_formed() ==> final(self).well_formed(),
    {
        let kind = entry.kind.clone();
        let name = entry.name.clone();
        self.retain_other(kind.as_str(), name.as_str());
        proof {
            if unique_keys(old(self).entries@) {
                law_insert_then_get(old(self).entries@, entry);
            }
        }
        self.entries.push(entry);
    }

    /// Forget the definition `name` of kind `kind`.
    pub fn remove(&mut self, kind: &str, name: &str)
        ensures
            final(self).entries@ == without(old(self).entries@, kind@, name@),
            old(self).well_formed() ==> final(self).well_formed(),
    {
        self.retain_other(kind, name);
        proof {
            if unique_keys(old(self).entries@) {
                lemma_without_unique(old(self).entries@, kind@, name@);
            }
        }
    }
}

} // verus!

verus! {

/// Recording a definition replaces what stood for its kind and name, keeps
/// every other definition, and leaves the registry holding each definition
/// once: a lookup afterwards finds exactly the recorded entry.
pub proof fn law_insert_then_get<H>(es: Seq<DefinitionEntry<H>>, e: DefinitionEntry<H>)
    requires
        unique_keys(es),
    ensures
        ({
            let after = without(es, e.kind@, e.name@).push(e);
            &&& unique_keys(after)
            &&& after.last() == e
            &&& forall|k: int|
                0 <= k < after.len() - 1 ==> !is_entry(#[trigger] after[k], e.kind@, e.name@)
            &&& forall|kind: Seq<char>, name: Seq<char>|
                !(kind == e.kind@ && name == e.name@) ==> (has_entry(after, kind, name)
                    <==> has_entry(es, kind, name))
        }),
{
    let w = without(es, e.kind@, e.name@);
    let after = w.push(e);
    lemma_without_unique(es, e.kind@, e.name@);
    lemma_without_members(es, e.kind@, e.name@);
    assert forall|i: int, j: int| 0 <= i < j < after.len() implies !same_key(
        #[trigger] after[i],
        #[trigger] after[j],
    ) by {
        if j == w.len() {
            assert(!is_entry(w[i], e.kind@, e.name@));
        } else {
            assert(after[i] == w[i] && after[j] == w[j]);
        }
    }
    assert forall|k: int| 0 <= k < after.len() - 1 implies !is_entry(
        #[trigger] after[k],
        e.kind@,
        e.name@,
    ) by {
        assert(after[k] == w[k]);
    }
    assert forall|kind: Seq<char>, name: Seq<char>|
        !(kind == e.kind@ && name == e.name@) implies (has_entry(after, kind, name) <==> has_entry(
            es,
            kind,
            name,
        )) by {
        if has_entry(after, kind, name) {
            let i = choose|i: int| 0 <= i < after.len() && is_entry(#[trigger] after[i], kind, name);
            assert(i < w.len());
            assert(after[i] == w[i]);
            assert(es.contains(w[i]));
            let k = choose|k: int| 0 <= k < es.len() && es[k] == w[i];
            assert(is_entry(es[k], kind, name));
        }
        if has_entry(es, kind, name) {
            let i = choose|i: int| 0 <= i < es.len() && is_entry(#[trigger] es[i], kind, name);
            assert(!is_entry(es[i], e.kind@, e.name@));
            assert(w.contains(es[i]));
            let k = choose|k: int| 0 <= k < w.len() && w[k] == es[i];
            assert(after[k] == w[k]);
            assert(is_entry(after[k], kind, name));
        }
    }
}

/// Forgetting a definition leaves nothing standing for it and keeps every
/// other definition.
pub proof fn law_remove_then_get<H>(es: Seq<DefinitionEntry<H>>, kind: Seq<char>, name: Seq<char>)
    requires
        unique_keys(es),
    ensures
        unique_keys(without(es, kind, name)),
        !has_entry(without(es, kind, name), kind, name),
        forall|k2: Seq<char>, n2: Seq<char>|
            !(k2 == kind && n2 == name) ==> (has_entry(without(es, kind, name), k2, n2)
                <==> has_entry(es, k2, n2)),
{
    let w = without(es, kind, name);
    lemma_without_unique(es, kind, name);
    lemma_without_members(es, kind, name);
    assert forall|k2: Seq<char>, n2: Seq<char>|
        !(k2 == kind && n2 == name) implies (has_entry(w, k2, n2) <==> has_entry(es, k2, n2)) by {
        if has_entry(w, k2, n2) {
            let i = choose|i: int| 0 <= i < w.len() && is_entry(#[trigger] w[i], k2, n2);
            assert(es.contains(w[i]));
            let k = choose|k: int| 0 <= k < es.len() && es[k] == w[i];
            assert(is_entry(es[k], k2, n2));
        }
        if has_entry(es, k2, n2) {
            let i = choose|i: int| 0 <= i < es.len() && is_entry(#[trigger] es[i], k2, n2);
            assert(w.contains(es[i]));
            let k = choose|k: int| 0 <= k < w.len() && w[k] == es[i];
            assert(is_entry(w[k], k2, n2));
        }
    }
}

} // verus!

verus! {

// ---------------------------------------------------------------------------
// Where definitions live on disk
// ---------------------------------------------------------------------------

/// Two path parts joined as Unix paths join: a part starting at the root
/// replaces what comes before it; otherwise a `/` goes between them unless
/// the first is empty or already ends in one.
pub open spec fn join_path(a: Seq<char>, b: Seq<char>) -> Seq<char> {
    if b.len() > 0 && b[0] == '/' {
        b
    } else if a.len() == 0 {
        b
    } else if a.last() == '/' {
        a + b
    } else {
        a + seq!['/'] + b
    }
}

fn join_path_exec(a: &str, b: &str) -> (r: String)
    ensures
        r@ == join_path(a@, b@),
{
    let av = chars_of(a);
    let mut bv = chars_of(b);
    if bv.len() > 0 && bv[0] == '/' {
        return string_of(&bv);
    }
    if av.len() == 0 {
        return string_of(&bv);
    }
    let mut out = av;
    if out[out.len() - 1] != '/' {
        out.push('/');
    }
    out.append(&mut bv);
    string_of(&out)
}

/// The directory a kind's definitions live in: the kind's directory under the
/// project's assets directory.
pub fn definition_dir(assets_dir: &str, directory: &str) -> (r: String)
    ensures
        r@ == join_path(assets_dir@, directory@),
{
    join_path_exec(assets_dir, directory)
}

/// The file a definition named `name` is written to: its sanitized name
/// followed by its kind's file suffix, in its kind's directory.
pub fn definition_path(assets_dir: &str, directory: &str, name: &str, suffix: &str) -> (r: String)
    ensures
        r@ == join_path(join_path(assets_dir@, directory@), sanitize_name_spec(name@) + suffix@),
{
    let dir = definition_dir(assets_dir, directory);
    let mut file = chars_of(sanitize_definition_name(name).as_str());
    let mut tail = chars_of(suffix);
    file.append(&mut tail);
    let file_name = string_of(&file);
    join_path_exec(dir.as_str(), file_name.as_str())
}

/// `r` lists the `(name, path)` pairs of `files` in the order a scan takes
/// them: by path, pairs with equal paths in the order they were read. (The
/// files of one kind share their directory, so ordering the paths as text
/// orders them as paths.)
pub open spec fn scan_order(files: Seq<(String, String)>, r: Seq<(String, String)>) -> bool {
    let keys = files.map_values(|f: (String, String)| f.1@);
    exists|order: Seq<usize>|
        is_permutation_of_range(order, files.len()) && (forall|a: int, b: int|
            0 <= a < b < order.len() ==> key_before(keys, #[trigger] order[a] as int, #[trigger] order[b] as int))
            && r.len() == files.len() && forall|k: int|
            0 <= k < r.len() ==> (#[trigger] r[k]).0@ == files[order[k] as int].0@ && r[k].1@ == files[order[k] as int].1@
}

/// The files of a kind in the order a scan takes them, so that the scan
/// order is stable; see `scan_order`.
pub fn definition_scan_order(files: Vec<(String, String)>) -> (r: Vec<(String, String)>)
    ensures
        scan_order(files@, r@),
{
    let mut keys: Vec<Vec<char>> = Vec::new();
    let mut i: usize = 0;
    while i < files.len()
        invariant
            i <= files.len(),
            keys@.len() == i,
            forall|k: int| 0 <= k < i ==> (#[trigger] keys@[k])@ == files@[k].1@,
        decreases files.len() - i,
    {
        keys.push(chars_of(files[i].1.as_str()));
        i += 1;
    }
    let order = stable_order(&keys);
    proof {
        assert(keys@.map_values(|k: Vec<char>| k@) =~= files@.map_values(|f: (String, String)| f.1@));
    }
    let mut r: Vec<(String, String)> = Vec::new();
    let mut j: usize = 0;
    while j < order.len()
        invariant
            j <= order.len(),
            is_permutation_of_range(order@, files@.len()),
            r@.len() == j,
            forall|k: int|
                0 <= k < j ==> (#[trigger] r@[k]).0@ == files@[order@[k] as int].0@ && r@[k].1@
                    == files@[order@[k] as int].1@,
        decreases order.len() - j,
    {
        let o = order[j];
        let pair = (files[o].0.clone(), files[o].1.clone());
        r.push(pair);
        j += 1;
    }
    r
}

/// Where a path a caller passes is taken from.
#[derive(PartialEq, Eq, Structural, Debug, Clone, Copy)]
pub enum PathResolution {
    /// As it is.
    AsGiven,
    /// Under the project's root.
    UnderRoot,
    /// Under the project's assets directory.
    UnderAssets,
}

/// Where a path a caller passes is taken from: an absolute path as it is,
/// and so any path when there is no project; else under the project's root
/// when something is there, and under its assets directory otherwise, so a
/// caller can pass what the asset browser lists.
pub fn resolve_choice(is_absolute: bool, has_root: bool, under_root_exists: bool) -> (r: PathResolution)
    ensures
        r == (if is_absolute || !has_root {
            PathResolution::AsGiven
        } else if under_root_exists {
            PathResolution::UnderRoot
        } else {
            PathResolution::UnderAssets
        }),
{
    if is_absolute || !has_root {
        PathResolution::AsGiven
    } else if under_root_exists {
        PathResolution::UnderRoot
    } else {
        PathResolution::UnderAssets
    }
}

/// What writing a definition's serialized text to its file comes to.
#[derive(PartialEq, Eq, Structural, Debug, Clone, Copy)]
pub enum WritePlan {
    /// The text is blank: nothing is written, and that is an error.
    NothingToWrite,
    /// The file already holds exactly this text: it is left alone, so the
    /// asset watcher does not reload behind an unchanged save.
    Unchanged,
    /// The file is written.
    Write,
}

/// What writing `text` over a file holding `existing` (none when it cannot
/// be read) comes to.
pub fn definition_write_plan(text: &str, existing: Option<&str>) -> (r: WritePlan)
    ensures
        r == (if trim_spec(text@).len() == 0 {
            WritePlan::NothingToWrite
        } else if existing matches Some(e) && e@ == text@ {
            WritePlan::Unchanged
        } else {
            WritePlan::Write
        }),
{
    let trimmed = trim(text);
    if chars_of(trimmed.as_str()).len() == 0 {
        return WritePlan::NothingToWrite;
    }
    match existing {
        Some(e) => if str_eq(e, text) {
            WritePlan::Unchanged
        } else {
            WritePlan::Write
        },
        None => WritePlan::Write,
    }
}

// ---------------------------------------------------------------------------
// Following the registered kinds
// ---------------------------------------------------------------------------

/// `es` keeping only the entries whose kind `keep` says to keep, in order.
pub open spec fn kept_by_kind<H>(es: Seq<DefinitionEntry<H>>, keep: spec_fn(Seq<char>) -> bool) -> Seq<
    DefinitionEntry<H>,
>
    decreases es.len(),
{
    if es.len() == 0 {
        Seq::empty()
    } else {
        let rest = kept_by_kind(es.drop_last(), keep);
        if keep(es.last().kind@) {
            rest.push(es.last())
        } else {
            rest
        }
    }
}

/// Whether `kind` is among `kinds`.
pub open spec fn listed_kind(kinds: Seq<Seq<char>>, kind: Seq<char>) -> bool {
    kinds.contains(kind)
}

impl<H> DefinitionRegistry<H> {
    /// Keep only the entries whose kind `keep_listed` says to keep: of the
    /// kinds among `kinds` when `keep_listed` holds, else of the kinds not
    /// among them.
    fn retain_by_kind(&mut self, kinds: &Vec<String>, keep_listed: bool)
        ensures
            final(self).entries@ == kept_by_kind(
                old(self).entries@,
                |k: Seq<char>| listed_kind(views(kinds@), k) == keep_listed,
            ),
    {
        let ghost orig = self.entries@;
        let ghost keep = |k: Seq<char>| listed_kind(views(kinds@), k) == keep_listed;
        let mut i: usize = 0;
        let ghost mut j: int = 0;
        while i < self.entries.len()
            invariant
                0 <= j <= orig.len(),
                i <= self.entries.len(),
                keep == (|k: Seq<char>| listed_kind(views(kinds@), k) == keep_listed),
                self.entries@ == kept_by_kind(orig.take(j), keep) + orig.skip(j),
                i == kept_by_kind(orig.take(j), keep).len(),
            decreases self.entries.len() - i,
        {
            proof {
                assert(self.entries@[i as int] == orig[j]);
                assert(orig.take(j + 1).drop_last() =~= orig.take(j));
                assert(orig.take(j + 1).last() == orig[j]);
            }
            let listed = contains_str(kinds, self.entries[i].kind.as_str());
            if listed != keep_listed {
                self.entries.remove(i);
                proof {
                    assert(self.entries@ =~= kept_by_kind(orig.take(j + 1), keep) + orig.skip(j + 1));
                }
            } else {
                proof {
                    assert(self.entries@ =~= kept_by_kind(orig.take(j + 1), keep) + orig.skip(j + 1));
                }
                i += 1;
            }
            proof {
                j = j + 1;
            }
        }
        proof {
            if j < orig.len() {
                assert(self.entries@.len() > i);
            }
            assert(orig.take(j) =~= orig);
            assert(orig.skip(j) =~= Seq::<DefinitionEntry<H>>::empty());
        }
    }

    /// Forget every entry whose kind is no longer a registered type.
    pub fn retain_registered(&mut self, kinds: &Vec<String>)
        ensures
            final(self).entries@ == kept_by_kind(old(self).entries@, |k: Seq<char>| listed_kind(views(kinds@), k)),
            old(self).well_formed() ==> final(self).well_formed(),
    {
        self.retain_by_kind(kinds, true);
        proof {
            if unique_keys(old(self).entries@) {
                lemma_kept_unique(old(self).entries@, |k: Seq<char>| listed_kind(views(kinds@), k) == true);
            }
            assert((|k: Seq<char>| listed_kind(views(kinds@), k) == true) =~= (|k: Seq<char>| listed_kind(
                views(kinds@),
                k,
            )));
        }
    }

    /// Forget every entry of `kind`, as before the kind's entries are
    /// recorded afresh from elsewhere.
    pub fn forget_kind(&mut self, kind: &str)
        ensures
            final(self).entries@ == kept_by_kind(old(self).entries@, |k: Seq<char>| k != kind@),
            old(self).well_formed() ==> final(self).well_formed(),
    {
        let kinds: Vec<String> = vec![string_of(&chars_of(kind))];
        self.retain_by_kind(&kinds, false);
        proof {
            if unique_keys(old(self).entries@) {
                lemma_kept_unique(old(self).entries@, |k: Seq<char>| listed_kind(views(kinds@), k) == false);
            }
            assert(views(kinds@) =~= seq![kind@]);
            assert forall|k: Seq<char>| (listed_kind(views(kinds@), k) == false) == (k != kind@) by {
                if k == kind@ {
                    assert(views(kinds@)[0] == k);
                }
            }
            assert((|k: Seq<char>| listed_kind(views(kinds@), k) == false) =~= (|k: Seq<char>| k != kind@));
        }
    }
}

/// Filtering by kind keeps exactly the entries of the kinds it keeps, in
/// order: after the registry follows the registered types, every entry left
/// is of a registered kind, and no entry of one is lost.
pub proof fn law_kept_by_kind<H>(es: Seq<DefinitionEntry<H>>, keep: spec_fn(Seq<char>) -> bool)
    ensures
        forall|i: int| 0 <= i < kept_by_kind(es, keep).len() ==> keep(#[trigger] kept_by_kind(es, keep)[i].kind@),
        forall|e: DefinitionEntry<H>| #[trigger] kept_by_kind(es, keep).contains(e) <==> (es.contains(e) && keep(e.kind@)),
    decreases es.len(),
{
    if es.len() > 0 {
        let d = es.drop_last();
        law_kept_by_kind(d, keep);
        let k = kept_by_kind(es, keep);
        let kd = kept_by_kind(d, keep);
        assert forall|i: int| 0 <= i < k.len() implies keep(#[trigger] k[i].kind@) by {
            if i < kd.len() {
                assert(k[i] == kd[i]);
            }
        }
        assert forall|e: DefinitionEntry<H>| #[trigger] k.contains(e) <==> (es.contains(e) && keep(e.kind@)) by {
            if es.contains(e) && keep(e.kind@) {
                let n = choose|n: int| 0 <= n < es.len() && es[n] == e;
                if n < es.len() - 1 {
                    assert(d[n] == e);
                    assert(d.contains(e));
                    assert(kd.contains(e));
                    let m = choose|m: int| 0 <= m < kd.len() && kd[m] == e;
                    assert(k[m] == e);
                } else {
                    assert(k[k.len() - 1] == e);
                }
            }
            if k.contains(e) {
                let m = choose|m: int| 0 <= m < k.len() && k[m] == e;
                if m < kd.len() {
                    assert(kd[m] == e);
                    assert(kd.contains(e));
                    let n = choose|n: int| 0 <= n < d.len() && d[n] == e;
                    assert(es[n] == e);
                } else {
                    assert(es[es.len() - 1] == e);
                }
            }
        }
    }
}

/// Filtering by kind keeps each definition once.
pub proof fn lemma_kept_unique<H>(es: Seq<DefinitionEntry<H>>, keep: spec_fn(Seq<char>) -> bool)
    requires
        unique_keys(es),
    ensures
        unique_keys(kept_by_kind(es, keep)),
    decreases es.len(),
{
    if es.len() > 0 {
        let d = es.drop_last();
        lemma_unique_drop_last(es);
        lemma_kept_unique(d, keep);
        law_kept_by_kind(d, keep);
        let kd = kept_by_kind(d, keep);
        if keep(es.last().kind@) {
            let r = kd.push(es.last());
            assert forall|i: int, j: int| 0 <= i < j < r.len() implies !same_key(#[trigger] r[i], #[trigger] r[j]) by {
                if j == kd.len() {
                    assert(kd.contains(kd[i]));
                    assert(d.contains(kd[i]));
                    let k = choose|k: int| 0 <= k < d.len() && d[k] == kd[i];
                    assert(!same_key(d[k], es.last()));
                } else {
                    assert(r[i] == kd[i] && r[j] == kd[j]);
                }
            }
        }
    }
}

/// Whether the definition open in the inspector must close because its kind
/// is no longer registered.
pub fn open_kind_gone(open_kind: Option<&str>, kinds: &Vec<String>) -> (r: bool)
    ensures
        r == (open_kind matches Some(k) && !views(kinds@).contains(k@)),
{
    match open_kind {
        Some(k) => !contains_str(kinds, k),
        None => false,
    }
}

/// What a change to a watched directory asks for.
#[derive(PartialEq, Eq, Structural, Debug, Clone, Copy)]
pub enum FileEventKind {
    Create,
    Remove,
    /// A file renamed or moved.
    Rename,
    /// Content or metadata changed in place.
    Modify,
    Access,
    Other,
}

/// Whether a change under the assets directory calls for a rescan: files
/// appearing, going, or being renamed; edits in place do not.
pub fn triggers_rescan(kind: FileEventKind) -> (r: bool)
    ensures
        r == (kind == FileEventKind::Create || kind == FileEventKind::Remove || kind == FileEventKind::Rename),
{
    match kind {
        FileEventKind::Create | FileEventKind::Remove | FileEventKind::Rename => true,
        _ => false,
    }
}

// ---------------------------------------------------------------------------
// Rescanning the registered directories
// ---------------------------------------------------------------------------

/// What a rescan of the registered directories found.
pub struct DefinitionRescan {
    /// `(kind, name)` of files that appeared since the last scan.
    pub added: Vec<(String, String)>,
    /// `(kind, name)` of entries whose file has gone.
    pub removed: Vec<(String, String)>,
}

/// `es` without the entries for each of `names` of kind `kind`.
pub open spec fn without_all<H>(es: Seq<DefinitionEntry<H>>, kind: Seq<char>, names: Seq<Seq<char>>) -> Seq<
    DefinitionEntry<H>,
>
    decreases names.len(),
{
    if names.len() == 0 {
        es
    } else {
        without(without_all(es, kind, names.drop_last()), kind, names.last())
    }
}

/// The members of `known` that `found` does not hold, in order.
pub open spec fn missing(known: Seq<Seq<char>>, found: Seq<Seq<char>>) -> Seq<Seq<char>>
    decreases known.len(),
{
    if known.len() == 0 {
        Seq::empty()
    } else {
        let rest = missing(known.drop_last(), found);
        if found.contains(known.last()) {
            rest
        } else {
            rest.push(known.last())
        }
    }
}

/// The `(name, path)` pairs of `files` whose name has no entry of kind `kind`,
/// in order.
pub open spec fn unregistered<H>(es: Seq<DefinitionEntry<H>>, kind: Seq<char>, files: Seq<(String, String)>) -> Seq<
    (String, String),
>
    decreases files.len(),
{
    if files.len() == 0 {
        Seq::empty()
    } else {
        let rest = unregistered(es, kind, files.drop_last());
        if has_entry(es, kind, files.last().0@) {
            rest
        } else {
            rest.push(files.last())
        }
    }
}

/// The registry after recording, in order, an entry of kind `kind` for each
/// `(name, path)` of `pending` whose load in `loaded` gave a handle, each one
/// replacing what stood for its name.
pub open spec fn recorded<H>(
    es: Seq<DefinitionEntry<H>>,
    kind: String,
    pending: Seq<(String, String)>,
    loaded: Seq<Option<H>>,
) -> Seq<DefinitionEntry<H>>
    decreases pending.len(),
{
    if pending.len() == 0 || loaded.len() == 0 {
        es
    } else {
        let rest = recorded(es, kind, pending.drop_last(), loaded.drop_last());
        match loaded.last() {
            Some(h) => without(rest, kind@, pending.last().0@).push(
                DefinitionEntry { kind, name: pending.last().0, handle: h, path: pending.last().1 },
            ),
            None => rest,
        }
    }
}

/// The names of `pending` whose load in `loaded` gave a handle, in order.
pub open spec fn loaded_names<H>(pending: Seq<(String, String)>, loaded: Seq<Option<H>>) -> Seq<Seq<char>>
    decreases pending.len(),
{
    if pending.len() == 0 || loaded.len() == 0 {
        Seq::empty()
    } else {
        let rest = loaded_names(pending.drop_last(), loaded.drop_last());
        if loaded.last() is Some {
            rest.push(pending.last().0@)
        } else {
            rest
        }
    }
}

pub proof fn lemma_missing_members(known: Seq<Seq<char>>, found: Seq<Seq<char>>)
    ensures
        forall|n: Seq<char>|
            #[trigger] missing(known, found).contains(n) <==> (known.contains(n) && !found.contains(
                n,
            )),
        known.no_duplicates() ==> missing(known, found).no_duplicates(),
        sorted_lex(known) ==> sorted_lex(missing(known, found)),
    decreases known.len(),
{
    if known.len() > 0 {
        let d = known.drop_last();
        lemma_missing_members(d, found);
        let r = missing(d, found);
        assert forall|n: Seq<char>| missing(known, found).contains(n) <==> (known.contains(n)
            && !found.contains(n)) by {
            if known.contains(n) && !found.contains(n) {
                let i = choose|i: int| 0 <= i < known.len() && known[i] == n;
                if i < known.len() - 1 {
                    assert(d[i] == n);
                    assert(d.contains(n));
                    assert(r.contains(n));
                    let k = choose|k: int| 0 <= k < r.len() && r[k] == n;
                    if !found.contains(known.last()) {
                        assert(r.push(known.last())[k] == n);
                    }
                } else {
                    assert(r.push(known.last())[r.len() as int] == n);
                }
            }
            if missing(known, found).contains(n) {
                let k = choose|k: int|
                    0 <= k < missing(known, found).len() && missing(known, found)[k] == n;
                if k < r.len() {
                    if !found.contains(known.last()) {
                        assert(r.push(known.last())[k] == r[k]);
                    }
                    assert(r.contains(n));
                    let i = choose|i: int| 0 <= i < d.len() && d[i] == n;
                    assert(known[i] == n);
                } else {
                    assert(known[known.len() - 1] == n);
                }
            }
        }
        if known.no_duplicates() {
            assert(d.no_duplicates()) by {
                assert forall|i: int, j: int| 0 <= i < d.len() && 0 <= j < d.len() && i != j implies d[i]
                    != d[j] by {
                    assert(known[i] == d[i] && known[j] == d[j]);
                }
            }
            if !found.contains(known.last()) {
                assert(!r.contains(known.last())) by {
                    if r.contains(known.last()) {
                        assert(d.contains(known.last()));
                        let i = choose|i: int| 0 <= i < d.len() && d[i] == known.last();
                        assert(known[i] == known[known.len() - 1]);
                    }
                }
                let m = r.push(known.last());
                assert forall|i: int, j: int| 0 <= i < m.len() && 0 <= j < m.len() && i != j implies m[i]
                    != m[j] by {
                    if i == r.len() {
                        assert(m[j] == r[j]);
                        assert(r.contains(r[j]));
                    } else if j == r.len() {
                        assert(m[i] == r[i]);
                        assert(r.contains(r[i]));
                    } else {
                        assert(m[i] == r[i] && m[j] == r[j]);
                    }
                }
            }
        }
        if sorted_lex(known) {
            assert(sorted_lex(d)) by {
                assert forall|i: int, j: int| 0 <= i < j < d.len() implies lex_le(
                    #[trigger] d[i],
                    #[trigger] d[j],
                ) by {
                    assert(known[i] == d[i] && known[j] == d[j]);
                }
            }
            if !found.contains(known.last()) {
                let m = r.push(known.last());
                assert forall|i: int, j: int| 0 <= i < j < m.len() implies lex_le(
                    #[trigger] m[i],
                    #[trigger] m[j],
                ) by {
                    if j == r.len() {
                        assert(m[i] == r[i]);
                        assert(r.contains(r[i]));
                        assert(d.contains(r[i]));
                        let k = choose|k: int| 0 <= k < d.len() && d[k] == r[i];
                        assert(known[k] == d[k]);
                        assert(lex_le(known[k], known[known.len() - 1]));
                    } else {
                        assert(m[i] == r[i] && m[j] == r[j]);
                    }
                }
            }
        }
    }
}

/// How often `missing(known, found)` holds a name: never when `found` holds
/// it, and as often as `known` does otherwise.
pub proof fn lemma_missing_count(known: Seq<Seq<char>>, found: Seq<Seq<char>>)
    ensures
        forall|n: Seq<char>|
            #[trigger] missing(known, found).to_multiset().count(n) == (if found.contains(n) {
                0
            } else {
                known.to_multiset().count(n)
            }),
    decreases known.len(),
{
    broadcast use vstd::seq_lib::group_to_multiset_ensures;
    if known.len() == 0 {
        assert(missing(known, found) =~= Seq::<Seq<char>>::empty());
    } else {
        let d = known.drop_last();
        let a = known.last();
        lemma_missing_count(d, found);
        assert(known =~= d.push(a));
        assert(known.to_multiset() =~= d.to_multiset().insert(a));
        let r = missing(d, found);
        if !found.contains(a) {
            assert(missing(known, found).to_multiset() =~= r.to_multiset().insert(a));
        }
        assert forall|n: Seq<char>|
            #[trigger] missing(known, found).to_multiset().count(n) == (if found.contains(n) {
                0
            } else {
                known.to_multiset().count(n)
            }) by {
            assert(r.to_multiset().count(n) == (if found.contains(n) {
                0
            } else {
                d.to_multiset().count(n)
            }));
        }
    }
}

pub proof fn lemma_names_unique<H>(es: Seq<DefinitionEntry<H>>, kind: Seq<char>)
    requires
        unique_keys(es),
    ensures
        names_with_kind(es, kind).no_duplicates(),
    decreases es.len(),
{
    if es.len() > 0 {
        let d = es.drop_last();
        lemma_unique_drop_last(es);
        lemma_names_unique(d, kind);
        lemma_names_with_kind_members(d, kind);
        let r = names_with_kind(d, kind);
        if es.last().kind@ == kind {
            let n = es.last().name@;
            assert(!r.contains(n)) by {
                if r.contains(n) {
                    assert(has_entry(d, kind, n));
                    let i = choose|i: int| 0 <= i < d.len() && is_entry(#[trigger] d[i], kind, n);
                    assert(same_key(d[i], es.last()));
                }
            }
            let m = r.push(n);
            assert forall|i: int, j: int| 0 <= i < m.len() && 0 <= j < m.len() && i != j implies m[i]
                != m[j] by {
                if i == r.len() {
                    assert(m[j] == r[j]);
                    assert(r.contains(r[j]));
                } else if j == r.len() {
                    assert(m[i] == r[i]);
                    assert(r.contains(r[i]));
                } else {
                    assert(m[i] == r[i] && m[j] == r[j]);
                }
            }
        }
    }
}

/// Whether `names` holds a string equal to `n`.
pub fn contains_str(names: &Vec<String>, n: &str) -> (r: bool)
    ensures
        r == views(names@).contains(n@),
{
    let mut i: usize = 0;
    while i < names.len()
        invariant
            i <= names.len(),
            forall|k: int| 0 <= k < i ==> names@[k]@ != n@,
        decreases names.len() - i,
    {
        if str_eq(names[i].as_str(), n) {
            assert(views(names@)[i as int] == n@);
            return true;
        }
        i += 1;
    }
    assert(!views(names@).contains(n@)) by {
        if views(names@).contains(n@) {
            let k = choose|k: int| 0 <= k < views(names@).len() && views(names@)[k] == n@;
            assert(names@[k]@ == n@);
        }
    }
    false
}

impl<H> DefinitionRegistry<H> {
    /// Drop every entry of `kind` whose file is not among `found`, and report
    /// the names dropped, sorted.
    pub fn forget_missing(&mut self, kind: &str, found: &Vec<String>) -> (gone: Vec<String>)
        ensures
            final(self).entries@ == without_all(old(self).entries@, kind@, views(gone@)),
            sorted_lex(views(gone@)),
            forall|n: Seq<char>|
                #[trigger] views(gone@).to_multiset().count(n) == (if views(found@).contains(n) {
                    0
                } else {
                    names_with_kind(old(self).entries@, kind@).to_multiset().count(n)
                }),
            old(self).well_formed() ==> {
                &&& final(self).well_formed()
                &&& views(gone@).no_duplicates()
                &&& forall|n: Seq<char>|
                    views(gone@).contains(n) <==> (has_entry(old(self).entries@, kind@, n)
                        && !views(found@).contains(n))
            },
    {
        broadcast use vstd::seq_lib::group_to_multiset_ensures;
        let ghost orig = self.entries@;
        let known = self.names_of(kind);
        proof {
            lemma_names_with_kind_members(orig, kind@);
            // Equal multisets hold the same members and, the names being
            // distinct, each one once.
            assert forall|n: Seq<char>| views(known@).contains(n) <==> has_entry(orig, kind@, n) by {
                assert(views(known@).to_multiset().count(n) == names_with_kind(orig, kind@).to_multiset().count(n));
            }
            if unique_keys(orig) {
                lemma_names_unique(orig, kind@);
                names_with_kind(orig, kind@).lemma_multiset_has_no_duplicates();
                views(known@).lemma_multiset_has_no_duplicates_conv();
            }
        }
        let mut gone: Vec<String> = Vec::new();
        let mut i: usize = 0;
        while i < known.len()
            invariant
                i <= known.len(),
                self.entries@ == without_all(orig, kind@, views(gone@)),
                views(gone@) == missing(views(known@).take(i as int), views(found@)),
            decreases known.len() - i,
        {
            let name = known[i].clone();
            proof {
                assert(views(known@).take(i + 1).drop_last() =~= views(known@).take(i as int));
                assert(views(known@).take(i + 1).last() == name@);
            }
            if !contains_str(found, name.as_str()) {
                self.remove(kind, name.as_str());
                let ghost g = views(gone@);
                gone.push(name);
                proof {
                    assert(views(gone@) =~= g.push(known@[i as int]@));
                    assert(views(gone@).drop_last() =~= g);
                }
            }
            i += 1;
        }
        proof {
            assert(views(known@).take(known.len() as int) =~= views(known@));
            lemma_missing_members(views(known@), views(found@));
            lemma_names_with_kind_members(orig, kind@);
            assert forall|n: Seq<char>| views(known@).contains(n) <==> has_entry(orig, kind@, n) by {
                assert(views(known@).to_multiset().count(n) == names_with_kind(orig, kind@).to_multiset().count(n));
            }
            lemma_missing_count(views(known@), views(found@));
            if unique_keys(orig) {
                law_rescan_keeps_found(orig, kind@, views(found@), views(gone@));
            }
        }
        gone
    }

    /// The `(name, path)` pairs of `files` whose name has no entry of kind
    /// `kind`: the files a rescan loads.
    pub fn pending_files(&self, kind: &str, files: &Vec<(String, String)>) -> (r: Vec<(String, String)>)
        ensures
            r@ == unregistered(self.entries@, kind@, files@),
    {
        let mut r: Vec<(String, String)> = Vec::new();
        let mut i: usize = 0;
        while i < files.len()
            invariant
                i <= files.len(),
                r@ == unregistered(self.entries@, kind@, files@.take(i as int)),
            decreases files.len() - i,
        {
            proof {
                assert(files@.take(i + 1).drop_last() =~= files@.take(i as int));
            }
            let known = self.get(kind, files[i].0.as_str()).is_some();
            if !known {
                let pair = (files[i].0.clone(), files[i].1.clone());
                r.push(pair);
            }
            i += 1;
            assert(r@ =~= unregistered(self.entries@, kind@, files@.take(i as int)));
        }
        assert(files@.take(files.len() as int) =~= files@);
        r
    }

    /// Record what loading the pending files gave: for each `(name, path)`
    /// of `pending` whose load gave a handle, an entry of kind `kind` is
    /// recorded as `insert` records it; the names recorded are returned in
    /// order.
    pub fn record_loaded(&mut self, kind: &String, pending: Vec<(String, String)>, loaded: Vec<Option<H>>) -> (added: Vec<String>)
        requires
            pending@.len() == loaded@.len(),
        ensures
            final(self).entries@ == recorded(old(self).entries@, *kind, pending@, loaded@),
            views(added@) == loaded_names(pending@, loaded@),
            old(self).well_formed() ==> final(self).well_formed(),
    {
        let ghost orig = self.entries@;
        let ghost all_pending = pending@;
        let ghost all_loaded = loaded@;
        let mut pending = pending;
        let mut loaded = loaded;
        let mut added: Vec<String> = Vec::new();
        let ghost mut j: int = 0;
        while pending.len() > 0
            invariant
                0 <= j <= all_pending.len(),
                all_pending.len() == all_loaded.len(),
                pending@ == all_pending.skip(j),
                loaded@ == all_loaded.skip(j),
                self.entries@ == recorded(orig, *kind, all_pending.take(j), all_loaded.take(j)),
                views(added@) == loaded_names(all_pending.take(j), all_loaded.take(j)),
                unique_keys(orig) ==> self.well_formed(),
            decreases pending.len(),
        {
            proof {
                assert(all_pending.take(j + 1).drop_last() =~= all_pending.take(j));
                assert(all_loaded.take(j + 1).drop_last() =~= all_loaded.take(j));
                assert(all_pending.take(j + 1).last() == all_pending[j]);
                assert(all_loaded.take(j + 1).last() == all_loaded[j]);
                assert(pending@[0] == all_pending[j]);
                assert(loaded@[0] == all_loaded[j]);
            }
            let (name, path) = pending.remove(0);
            let outcome = loaded.remove(0);
            match outcome {
                Some(handle) => {
                    let entry = DefinitionEntry { kind: kind.clone(), name: name.clone(), handle, path };
                    self.insert(entry);
                    let ghost before = views(added@);
                    added.push(name);
                    proof {
                        assert(views(added@) =~= before.push(all_pending[j].0@));
                    }
                },
                None => {},
            }
            proof {
                assert(pending@ =~= all_pending.skip(j + 1));
                assert(loaded@ =~= all_loaded.skip(j + 1));
                j = j + 1;
            }
        }
        proof {
            assert(all_pending.take(j) =~= all_pending);
            assert(all_loaded.take(j) =~= all_loaded);
        }
        added
    }
}

} // verus!

verus! {

pub proof fn lemma_without_all_members<H>(es: Seq<DefinitionEntry<H>>, kind: Seq<char>, names: Seq<Seq<char>>)
    requires
        unique_keys(es),
    ensures
        unique_keys(without_all(es, kind, names)),
        forall|k2: Seq<char>, n2: Seq<char>|
            #[trigger] has_entry(without_all(es, kind, names), k2, n2) <==> (has_entry(es, k2, n2)
                && !(k2 == kind && names.contains(n2))),
    decreases names.len(),
{
    if names.len() > 0 {
        let d = names.drop_last();
        lemma_without_all_members(es, kind, d);
        let inner = without_all(es, kind, d);
        law_remove_then_get(inner, kind, names.last());
        assert forall|k2: Seq<char>, n2: Seq<char>|
            #[trigger] has_entry(without_all(es, kind, names), k2, n2) <==> (has_entry(es, k2, n2)
                && !(k2 == kind && names.contains(n2))) by {
            assert(has_entry(inner, k2, n2) <==> (has_entry(es, k2, n2) && !(k2 == kind
                && d.contains(n2))));
            if names.contains(n2) && !d.contains(n2) {
                let i = choose|i: int| 0 <= i < names.len() && names[i] == n2;
                if i < names.len() - 1 {
                    assert(d[i] == n2);
                }
            }
            if d.contains(n2) {
                let i = choose|i: int| 0 <= i < d.len() && d[i] == n2;
                assert(names[i] == n2);
            }
        }
    }
}

/// Recording what loading the pending files gave keeps each definition once,
/// keeps every definition that was there, and leaves an entry of the kind
/// for each name whose load gave a handle, and nothing more.
pub proof fn law_recorded_loads<H>(
    es: Seq<DefinitionEntry<H>>,
    kind: String,
    pending: Seq<(String, String)>,
    loaded: Seq<Option<H>>,
)
    requires
        unique_keys(es),
        pending.len() == loaded.len(),
    ensures
        unique_keys(recorded(es, kind, pending, loaded)),
        forall|k2: Seq<char>, n2: Seq<char>|
            #[trigger] has_entry(recorded(es, kind, pending, loaded), k2, n2) <==> (has_entry(es, k2, n2)
                || (k2 == kind@ && loaded_names(pending, loaded).contains(n2))),
    decreases pending.len(),
{
    if pending.len() > 0 {
        let p0 = pending.drop_last();
        let l0 = loaded.drop_last();
        law_recorded_loads(es, kind, p0, l0);
        let rest = recorded(es, kind, p0, l0);
        let names = loaded_names(p0, l0);
        match loaded.last() {
            Some(h) => {
                let e = DefinitionEntry { kind, name: pending.last().0, handle: h, path: pending.last().1 };
                law_insert_then_get(rest, e);
                let after = without(rest, kind@, pending.last().0@).push(e);
                assert(after[after.len() - 1] == e);
                assert forall|k2: Seq<char>, n2: Seq<char>|
                    #[trigger] has_entry(recorded(es, kind, pending, loaded), k2, n2) <==> (has_entry(
                        es,
                        k2,
                        n2,
                    ) || (k2 == kind@ && loaded_names(pending, loaded).contains(n2))) by {
                    assert(loaded_names(pending, loaded) == names.push(pending.last().0@));
                    assert(names.push(pending.last().0@).contains(n2) <==> (names.contains(n2) || n2
                        == pending.last().0@)) by {
                        if names.contains(n2) {
                            let k = choose|k: int| 0 <= k < names.len() && names[k] == n2;
                            assert(names.push(pending.last().0@)[k] == n2);
                        }
                        if names.push(pending.last().0@).contains(n2) {
                            let k = choose|k: int|
                                0 <= k < names.len() + 1 && names.push(pending.last().0@)[k] == n2;
                            if k < names.len() {
                                assert(names[k] == n2);
                            }
                        }
                        if n2 == pending.last().0@ {
                            assert(names.push(pending.last().0@)[names.len() as int] == n2);
                        }
                    }
                    if k2 == kind@ && n2 == pending.last().0@ {
                        assert(is_entry(after[after.len() - 1], k2, n2));
                    }
                }
            },
            None => {},
        }
    }
}

/// After a rescan has dropped the missing files of a kind, every definition
/// of that kind still recorded has its file among those found, each one found
/// that was recorded is still there, and no other kind is touched.
pub proof fn law_rescan_keeps_found<H>(
    before: Seq<DefinitionEntry<H>>,
    kind: Seq<char>,
    found: Seq<Seq<char>>,
    gone: Seq<Seq<char>>,
)
    requires
        unique_keys(before),
        forall|n: Seq<char>|
            #[trigger] gone.contains(n) <==> (has_entry(before, kind, n) && !found.contains(n)),
    ensures
        unique_keys(without_all(before, kind, gone)),
        forall|n: Seq<char>|
            has_entry(without_all(before, kind, gone), kind, n) <==> (has_entry(before, kind, n)
                && found.contains(n)),
        forall|k2: Seq<char>, n2: Seq<char>|
            k2 != kind ==> (has_entry(without_all(before, kind, gone), k2, n2) <==> has_entry(
                before,
                k2,
                n2,
            )),
{
    lemma_without_all_members(before, kind, gone);
    assert forall|n: Seq<char>| has_entry(without_all(before, kind, gone), kind, n) <==> (has_entry(
        before,
        kind,
        n,
    ) && found.contains(n)) by {
        assert(has_entry(without_all(before, kind, gone), kind, n) <==> (has_entry(before, kind, n)
            && !gone.contains(n)));
    }
    assert forall|k2: Seq<char>, n2: Seq<char>|
        k2 != kind implies (has_entry(without_all(before, kind, gone), k2, n2) <==> has_entry(
            before,
            k2,
            n2,
        )) by {
        assert(has_entry(without_all(before, kind, gone), k2, n2) <==> (has_entry(before, k2, n2)
            && !(k2 == kind && gone.contains(n2))));
    }
}

} // verus!

verus! {

// ---------------------------------------------------------------------------
// Free names
// ---------------------------------------------------------------------------

/// The `index`-th name a new definition labelled `label` may take:
/// `<label>_<index>`, sanitized.
pub open spec fn numbered_name(label: Seq<char>, index: nat) -> Seq<char> {
    sanitize_name_spec(label + seq!['_'] + decimal(index))
}

/// Whether a definition of kind `kind` named `n` exists, loaded or on disk
/// (`files` being the names of the kind's files).
pub open spec fn name_taken<H>(
    es: Seq<DefinitionEntry<H>>,
    kind: Seq<char>,
    files: Seq<Seq<char>>,
    n: Seq<char>,
) -> bool {
    has_entry(es, kind, n) || files.contains(n)
}

pub proof fn lemma_lead_concat(l: Seq<char>, x: Seq<char>, i: int)
    requires
        0 <= i <= l.len(),
        x.len() > 0,
        !is_ws(x[0]),
    ensures
        lead_from(l + x, i) == lead_from(l, i),
    decreases l.len() - i,
{
    if i < l.len() {
        assert((l + x)[i] == l[i]);
        if is_ws(l[i]) {
            lemma_lead_concat(l, x, i + 1);
        }
    } else {
        assert((l + x)[i] == x[0]);
    }
}

/// What the numbered names look like: one fixed stem, `_`, and the number.
pub proof fn lemma_numbered_name_shape(label: Seq<char>, index: nat)
    ensures
        numbered_name(label, index) == label.subrange(lead_from(label, 0), label.len() as int).map_values(
            |c: char| clean_name_char(c),
        ) + seq!['_'] + decimal(index),
{
    let u = seq!['_'];
    let d = decimal(index);
    let full = label + u + d;
    lemma_decimal_digits(index);
    lemma_lead_from_bounds(label, 0);
    let a = lead_from(label, 0);
    assert(full =~= label + (u + d));
    lemma_lead_concat(label, u + d, 0);
    assert(lead_from(full, 0) == a);
    assert(is_ascii_digit(full[full.len() - 1]));
    assert(end_from(full, a, full.len() as int) == full.len());
    let sub = label.subrange(a, label.len() as int);
    assert(trim_spec(full) =~= sub + u + d);
    let m = (sub + u + d).map_values(|c: char| clean_name_char(c));
    assert forall|k: int| 0 <= k < d.len() implies clean_name_char(#[trigger] d[k]) == d[k] by {
        assert(is_ascii_digit(d[k]));
    }
    assert(m =~= sub.map_values(|c: char| clean_name_char(c)) + u + d);
    assert(clean_name(full) == m);
    assert(m.len() > 0);
}

/// Different numbers give different names.
pub proof fn lemma_numbered_name_injective(label: Seq<char>, i: nat, j: nat)
    requires
        numbered_name(label, i) == numbered_name(label, j),
    ensures
        i == j,
{
    lemma_numbered_name_shape(label, i);
    lemma_numbered_name_shape(label, j);
    let p = label.subrange(lead_from(label, 0), label.len() as int).map_values(
        |c: char| clean_name_char(c),
    );
    let ni = numbered_name(label, i);
    let nj = numbered_name(label, j);
    let s: int = p.len() as int + 1;
    assert(ni.subrange(s, ni.len() as int) =~= decimal(i));
    assert(nj.subrange(s, nj.len() as int) =~= decimal(j));
    lemma_decimal_injective(i, j);
}

/// A sequence of distinct members of `t` is no longer than `t`.
pub proof fn lemma_distinct_members_bound<A>(s: Seq<A>, t: Seq<A>)
    requires
        s.no_duplicates(),
        forall|k: int| 0 <= k < s.len() ==> t.contains(#[trigger] s[k]),
    ensures
        s.len() <= t.len(),
{
    broadcast use vstd::seq_lib::seq_to_set_is_finite;
    s.unique_seq_to_set();
    t.lemma_cardinality_of_set();
    assert(s.to_set().subset_of(t.to_set())) by {
        assert forall|x: A| s.to_set().contains(x) implies t.to_set().contains(x) by {
            let k = choose|k: int| 0 <= k < s.len() && s[k] == x;
            assert(t.contains(s[k]));
        }
    }
    vstd::set_lib::lemma_len_subset(s.to_set(), t.to_set());
}

/// The names of every entry, followed by `files`.
pub open spec fn all_names<H>(es: Seq<DefinitionEntry<H>>, files: Seq<Seq<char>>) -> Seq<Seq<char>> {
    es.map_values(|e: DefinitionEntry<H>| e.name@) + files
}

pub proof fn lemma_taken_in_all_names<H>(
    es: Seq<DefinitionEntry<H>>,
    kind: Seq<char>,
    files: Seq<Seq<char>>,
    n: Seq<char>,
)
    requires
        name_taken(es, kind, files, n),
    ensures
        all_names(es, files).contains(n),
{
    let all = all_names(es, files);
    if has_entry(es, kind, n) {
        let i = choose|i: int| 0 <= i < es.len() && is_entry(#[trigger] es[i], kind, n);
        assert(all[i] == n);
    } else {
        let k = choose|k: int| 0 <= k < files.len() && files[k] == n;
        assert(all[es.len() + k] == n);
    }
}

/// The first `<label>_<N>` name of this kind, counting from 1, with neither an
/// entry nor a file (`files` being the names of the kind's files).
pub fn next_free_name<H>(
    registry: &DefinitionRegistry<H>,
    kind: &str,
    label: &str,
    files: &Vec<String>,
) -> (r: String)
    requires
        registry.entries.len() + files.len() < u32::MAX,
    ensures
        exists|i: nat|
            1 <= i && r@ == numbered_name(label@, i) && !name_taken(
                registry.entries@,
                kind@,
                views(files@),
                r@,
            ) && forall|k: nat|
                1 <= k < i ==> name_taken(
                    registry.entries@,
                    kind@,
                    views(files@),
                    #[trigger] numbered_name(label@, k),
                ),
{
    let ghost es = registry.entries@;
    let ghost fs = views(files@);
    let ghost bound = registry.entries.len() + files.len();
    let label_chars = chars_of(label);
    let mut index: u32 = 1;
    let ghost mut seen: Seq<Seq<char>> = Seq::empty();
    loop
        invariant
            1 <= index,
            index as int <= bound + 1,
            bound == es.len() + fs.len(),
            bound < u32::MAX,
            es == registry.entries@,
            fs == views(files@),
            label_chars@ == label@,
            seen.len() == index - 1,
            seen.no_duplicates(),
            forall|k: int| 0 <= k < seen.len() ==> #[trigger] seen[k] == numbered_name(label@, (k + 1) as nat),
            forall|k: int| 0 <= k < seen.len() ==> name_taken(es, kind@, fs, #[trigger] seen[k]),
        decreases bound + 1 - index,
    {
        let mut raw = label_chars.clone();
        assert(raw@ == label@);
        raw.push('_');
        assert(raw@ == label@ + seq!['_']);
        push_decimal(&mut raw, index as u64);
        assert(raw@ == label@ + seq!['_'] + decimal(index as nat));
        let raw_string = string_of(&raw);
        let candidate = sanitize_definition_name(raw_string.as_str());
        assert(candidate@ == numbered_name(label@, index as nat));
        let taken = registry.get(kind, candidate.as_str()).is_some() || contains_str(
            files,
            candidate.as_str(),
        );
        if !taken {
            assert forall|k: nat| 1 <= k < index implies name_taken(
                es,
                kind@,
                fs,
                #[trigger] numbered_name(label@, k),
            ) by {
                assert(seen[k - 1] == numbered_name(label@, k));
            }
            return candidate;
        }
        proof {
            let next = seen.push(candidate@);
            assert forall|x: int, y: int|
                0 <= x < next.len() && 0 <= y < next.len() && x != y implies next[x] != next[y] by {
                if x < seen.len() && y < seen.len() {
                    assert(next[x] == seen[x] && next[y] == seen[y]);
                } else if x == seen.len() && y < seen.len() {
                    assert(next[y] == seen[y]);
                    if next[x] == next[y] {
                        lemma_numbered_name_injective(label@, index as nat, (y + 1) as nat);
                    }
                } else if y == seen.len() && x < seen.len() {
                    assert(next[x] == seen[x]);
                    if next[x] == next[y] {
                        lemma_numbered_name_injective(label@, index as nat, (x + 1) as nat);
                    }
                }
            }
            assert forall|k: int| 0 <= k < next.len() implies all_names(es, fs).contains(
                #[trigger] next[k],
            ) by {
                if k < seen.len() {
                    assert(next[k] == seen[k]);
                    lemma_taken_in_all_names(es, kind@, fs, seen[k]);
                } else {
                    lemma_taken_in_all_names(es, kind@, fs, candidate@);
                }
            }
            lemma_distinct_members_bound(next, all_names(es, fs));
            seen = next;
        }
        index += 1;
    }
}

} // verus!

verus! {

// ---------------------------------------------------------------------------
// Creating a definition
// ---------------------------------------------------------------------------

/// What a registered definition type says about its kind, as far as creating
/// one is concerned.
pub struct DefinitionKindInfo {
    /// The label new definitions are numbered after (`Item` gives `Item_1`).
    pub label: String,
    /// Whether the editor scans its directory itself; a kind loaded elsewhere
    /// is created by whoever loads it.
    pub scanned: bool,
}

/// Why a definition cannot be created.
#[derive(PartialEq, Eq, Structural, Debug, Clone, Copy)]
pub enum NewDefinitionError {
    /// The kind is not a registered definition type.
    UnknownKind,
    /// Definitions of the kind are created by whoever loads them.
    LoadedElsewhere,
    /// A definition of the kind with this name is loaded.
    NameTaken,
    /// A file for a definition of the kind with this name is already there.
    FileExists,
}

/// The name a new definition of kind `kind` gets, or why it cannot be made:
/// the requested name sanitized, or the next free numbered name when none is
/// requested. `files` are the names of the kind's files on disk.
pub fn new_definition_name<H>(
    registry: &DefinitionRegistry<H>,
    kind: &str,
    registered: Option<&DefinitionKindInfo>,
    requested: Option<&str>,
    files: &Vec<String>,
) -> (r: Result<String, NewDefinitionError>)
    requires
        registry.entries.len() + files.len() < u32::MAX,
    ensures
        match registered {
            None => r == Err::<String, NewDefinitionError>(NewDefinitionError::UnknownKind),
            Some(d) => if !d.scanned {
                r == Err::<String, NewDefinitionError>(NewDefinitionError::LoadedElsewhere)
            } else {
                match requested {
                    Some(n) => {
                        let name = sanitize_name_spec(n@);
                        if has_entry(registry.entries@, kind@, name) {
                            r == Err::<String, NewDefinitionError>(NewDefinitionError::NameTaken)
                        } else if views(files@).contains(name) {
                            r == Err::<String, NewDefinitionError>(NewDefinitionError::FileExists)
                        } else {
                            r matches Ok(s) && s@ == name
                        }
                    },
                    None => match r {
                        Ok(s) => exists|i: nat|
                            1 <= i && s@ == numbered_name(d.label@, i) && !name_taken(
                                registry.entries@,
                                kind@,
                                views(files@),
                                s@,
                            ) && forall|k: nat|
                                1 <= k < i ==> name_taken(
                                    registry.entries@,
                                    kind@,
                                    views(files@),
                                    #[trigger] numbered_name(d.label@, k),
                                ),
                        Err(_) => false,
                    },
                }
            },
        },
{
    let d = match registered {
        None => return Err(NewDefinitionError::UnknownKind),
        Some(d) => d,
    };
    if !d.scanned {
        return Err(NewDefinitionError::LoadedElsewhere);
    }
    let name = match requested {
        Some(n) => sanitize_definition_name(n),
        None => next_free_name(registry, kind, d.label.as_str(), files),
    };
    if registry.get(kind, name.as_str()).is_some() {
        return Err(NewDefinitionError::NameTaken);
    }
    if contains_str(files, name.as_str()) {
        return Err(NewDefinitionError::FileExists);
    }
    Ok(name)
}

/// Whether deleting `name` of kind `kind` takes away the definition open in
/// the inspector, given the kind and name of the open one.
pub fn deletes_open_definition(open: Option<(&str, &str)>, kind: &str, name: &str) -> (r: bool)
    ensures
        r == (open matches Some((k, n)) && k@ == kind@ && n@ == name@),
{
    match open {
        Some((k, n)) => str_eq(k, kind) && str_eq(n, name),
        None => false,
    }
}

/// The report listing the definitions of a kind: `<kind>: <name>, <name>`.
pub fn definition_list_report(kind: &str, names: &Vec<String>) -> (r: String)
    ensures
        r@ == kind@ + seq![':', ' '] + join_spec(views(names@), seq![',', ' ']),
{
    let mut out = chars_of(kind);
    out.push(':');
    out.push(' ');
    let sep: Vec<char> = vec![',', ' '];
    let sep_string = string_of(&sep);
    let joined = join(names, sep_string.as_str());
    let mut jc = chars_of(joined.as_str());
    out.append(&mut jc);
    assert(out@ =~= kind@ + seq![':', ' '] + join_spec(views(names@), seq![',', ' ']));
    string_of(&out)
}

/// How a definition file is opened in the inspector.
#[derive(PartialEq, Eq, Structural, Debug, Clone, Copy)]
pub enum OpenPlan {
    /// Show the value already loaded for it.
    UseLoaded,
    /// Load the file, record it, and show it.
    LoadFile,
    /// Nothing is loaded, and whoever loads the kind is not the editor.
    Refuse,
}

impl<H> DefinitionRegistry<H> {
    /// How opening the file of definition `name` of kind `kind` goes: the
    /// loaded value when there is one, else the file is loaded when the
    /// editor scans the kind itself.
    pub fn open_plan(&self, kind: &str, name: &str, scanned: bool) -> (r: OpenPlan)
        ensures
            r == (if has_entry(self.entries@, kind@, name@) {
                OpenPlan::UseLoaded
            } else if scanned {
                OpenPlan::LoadFile
            } else {
                OpenPlan::Refuse
            }),
    {
        if self.get(kind, name).is_some() {
            OpenPlan::UseLoaded
        } else if scanned {
            OpenPlan::LoadFile
        } else {
            OpenPlan::Refuse
        }
    }
}

/// The title of the inspector card of an open definition: `<name> (<label>)`,
/// the label being the registered type's, or the kind itself when the type is
/// not registered.
pub fn definition_card_name(name: &str, kind: &str, label: Option<&str>) -> (r: String)
    ensures
        r@ == name@ + " ("@ + (match label {
            Some(l) => l@,
            None => kind@,
        }) + ")"@,
{
    let mut v = chars_of(name);
    let mut open = chars_of(" (");
    v.append(&mut open);
    let mut l = match label {
        Some(l) => chars_of(l),
        None => chars_of(kind),
    };
    v.append(&mut l);
    let mut close = chars_of(")");
    v.append(&mut close);
    string_of(&v)
}

// ---------------------------------------------------------------------------
// The baseline of a drag on a definition's field
// ---------------------------------------------------------------------------

/// The value a field held before the first tick of a drag, so the undo entry
/// the drag commits restores it rather than the value after the last tick.
/// `B` is the serialized value.
pub struct DefinitionEditSession<B> {
    /// `(type path, field path)` of the field being dragged.
    pub field: Option<(String, String)>,
    pub baseline: Option<B>,
}

/// Whether the session is on the field `field_path` of `type_path`.
pub open spec fn session_on(field: Option<(String, String)>, type_path: Seq<char>, field_path: Seq<char>) -> bool {
    field matches Some(f) && f.0@ == type_path && f.1@ == field_path
}

/// How recording a baseline leaves a session.
pub open spec fn remember_post<B>(
    before: DefinitionEditSession<B>,
    after: DefinitionEditSession<B>,
    type_path: Seq<char>,
    field_path: Seq<char>,
    baseline: Option<B>,
) -> bool {
    if session_on(before.field, type_path, field_path) {
        after == before
    } else {
        session_on(after.field, type_path, field_path) && after.baseline == baseline
    }
}

/// How taking the baseline leaves a session, and what it hands back.
pub open spec fn take_post<B>(
    before: DefinitionEditSession<B>,
    after: DefinitionEditSession<B>,
    type_path: Seq<char>,
    field_path: Seq<char>,
    taken: Option<B>,
) -> bool {
    &&& after.field is None
    &&& after.baseline is None
    &&& taken == (if session_on(before.field, type_path, field_path) {
        before.baseline
    } else {
        None
    })
}

impl<B> DefinitionEditSession<B> {
    /// A session on no field.
    pub fn new() -> (r: Self)
        ensures
            r.field is None,
            r.baseline is None,
    {
        DefinitionEditSession { field: None, baseline: None }
    }

    /// Whether a drag on this field still has to record its baseline.
    pub fn needs_baseline(&self, type_path: &str, field_path: &str) -> (r: bool)
        ensures
            r == !session_on(self.field, type_path@, field_path@),
    {
        match &self.field {
            Some(f) => !(str_eq(f.0.as_str(), type_path) && str_eq(f.1.as_str(), field_path)),
            None => true,
        }
    }

    /// Record what the field held before a drag's first tick; a later tick on
    /// the same field keeps the first baseline.
    pub fn remember_baseline(&mut self, type_path: &str, field_path: &str, baseline: Option<B>)
        ensures
            remember_post(*old(self), *final(self), type_path@, field_path@, baseline),
    {
        if !self.needs_baseline(type_path, field_path) {
            return;
        }
        self.field = Some((string_of(&chars_of(type_path)), string_of(&chars_of(field_path))));
        self.baseline = baseline;
    }

    /// Take the baseline a drag on this field left, if there is one, and end
    /// the session whatever field it was on.
    pub fn take_baseline(&mut self, type_path: &str, field_path: &str) -> (r: Option<B>)
        ensures
            take_post(*old(self), *final(self), type_path@, field_path@, r),
    {
        let matches = !self.needs_baseline(type_path, field_path);
        self.field = None;
        let baseline = self.baseline.take();
        if matches {
            baseline
        } else {
            None
        }
    }
}

} // verus!

verus! {

/// A drag's ticks on one field, then its commit on that field, hand back what
/// the field held before the first tick, however many ticks there were; a
/// commit on another field gets nothing; and either commit ends the session.
pub proof fn law_drag_baseline<B>(
    start: DefinitionEditSession<B>,
    first: DefinitionEditSession<B>,
    later: DefinitionEditSession<B>,
    end: DefinitionEditSession<B>,
    type_path: Seq<char>,
    field_path: Seq<char>,
    before_first: Option<B>,
    before_later: Option<B>,
    commit_type: Seq<char>,
    commit_field: Seq<char>,
    taken: Option<B>,
)
    requires
        !session_on(start.field, type_path, field_path),
        remember_post(start, first, type_path, field_path, before_first),
        remember_post(first, later, type_path, field_path, before_later),
        take_post(later, end, commit_type, commit_field, taken),
    ensures
        taken == (if commit_type == type_path && commit_field == field_path {
            before_first
        } else {
            None
        }),
        end.field is None,
{
}

} // verus!
