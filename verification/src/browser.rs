//! The asset browser: which directory entries it lists and in what order,
//! the breadcrumb above them, and what a double click on one does.

use vstd::prelude::*;

use crate::brush::{BrushEditMode, EditMode};
use crate::text::{
    chars_of, contains_chars, contains_spec, ends_with_chars, ends_with_spec, is_permutation_of_range,
    key_before, lowercase_of, stable_order, string_of, to_lowercase,
};

verus! {

/// How the browser lays out its entries.
#[derive(PartialEq, Eq, Structural, Clone, Copy, Debug)]
pub enum BrowserViewMode {
    Grid,
    List,
}

/// One entry of a directory as the browser lists it.
#[derive(Clone, Debug)]
pub struct DirEntry {
    pub path: String,
    pub file_name: String,
    pub is_directory: bool,
}

/// The plain values of an entry.
pub open spec fn entry_view(e: DirEntry) -> (Seq<char>, Seq<char>, bool) {
    (e.path@, e.file_name@, e.is_directory)
}

/// Whether the browser lists an entry: hidden (dot) files never; with a
/// filter, only names whose lower case holds the filter's lower case.
pub open spec fn listed(e: DirEntry, filter: Seq<char>) -> bool {
    &&& !(e.file_name@.len() > 0 && e.file_name@[0] == '.')
    &&& (filter.len() == 0 || contains_spec(lowercase_of(e.file_name@), lowercase_of(filter)))
}

/// The entries the browser lists, in the order read.
pub open spec fn listed_entries(read: Seq<DirEntry>, filter: Seq<char>) -> Seq<DirEntry>
    decreases read.len(),
{
    if read.len() == 0 {
        Seq::empty()
    } else {
        let rest = listed_entries(read.drop_last(), filter);
        if listed(read.last(), filter) {
            rest.push(read.last())
        } else {
            rest
        }
    }
}

/// The key entries are sorted by: directories first, then by lower-case name.
pub open spec fn entry_key(e: DirEntry) -> Seq<char> {
    seq![if e.is_directory { '0' } else { '1' }] + lowercase_of(e.file_name@)
}

fn entry_copy(e: &DirEntry) -> (r: DirEntry)
    ensures
        entry_view(r) == entry_view(*e),
{
    DirEntry { path: e.path.clone(), file_name: e.file_name.clone(), is_directory: e.is_directory }
}

/// `r` is what the browser lists of the entries `read` under `filter`:
/// hidden files and, with a non-empty filter, names not holding it dropped;
/// directories first, then by lower-case name, entries that tie keeping the
/// order they were read in.
pub open spec fn browser_listing(read: Seq<DirEntry>, filter: Seq<char>, r: Seq<DirEntry>) -> bool {
    let kept = listed_entries(read, filter);
    let keys = kept.map_values(|e: DirEntry| entry_key(e));
    exists|order: Seq<usize>|
        is_permutation_of_range(order, kept.len()) && (forall|a: int, b: int|
            0 <= a < b < order.len() ==> key_before(keys, #[trigger] order[a] as int, #[trigger] order[b] as int))
            && r.len() == kept.len() && forall|k: int|
            0 <= k < r.len() ==> entry_view(#[trigger] r[k]) == entry_view(kept[order[k] as int])
}

/// The entries of a directory read as the browser lists them; see
/// `browser_listing`.
pub fn browser_entries(read: &Vec<DirEntry>, filter: &str) -> (r: Vec<DirEntry>)
    ensures
        browser_listing(read@, filter@, r@),
{
    let lower_filter = chars_of(to_lowercase(filter).as_str());
    let filter_empty = chars_of(filter).len() == 0;
    let mut kept: Vec<DirEntry> = Vec::new();
    let mut i: usize = 0;
    while i < read.len()
        invariant
            i <= read.len(),
            lower_filter@ == lowercase_of(filter@),
            filter_empty == (filter@.len() == 0),
            kept@.len() == listed_entries(read@.take(i as int), filter@).len(),
            forall|k: int|
                0 <= k < kept@.len() ==> entry_view(#[trigger] kept@[k]) == entry_view(
                    listed_entries(read@.take(i as int), filter@)[k],
                ),
        decreases read.len() - i,
    {
        let e = &read[i];
        let name = chars_of(e.file_name.as_str());
        let hidden = name.len() > 0 && name[0] == '.';
        let shown = !hidden && (filter_empty || contains_chars(
            &chars_of(to_lowercase(e.file_name.as_str()).as_str()),
            &lower_filter,
        ));
        proof {
            assert(read@.take(i + 1).drop_last() =~= read@.take(i as int));
            assert(read@.take(i + 1).last() == *e);
            assert(shown == listed(*e, filter@));
        }
        if shown {
            kept.push(entry_copy(e));
        }
        i += 1;
    }
    assert(read@.take(read.len() as int) =~= read@);
    let ghost lk = listed_entries(read@, filter@);
    let mut keys: Vec<Vec<char>> = Vec::new();
    let mut j: usize = 0;
    while j < kept.len()
        invariant
            j <= kept.len(),
            kept@.len() == lk.len(),
            forall|k: int| 0 <= k < kept@.len() ==> entry_view(#[trigger] kept@[k]) == entry_view(lk[k]),
            keys@.len() == j,
            forall|k: int| 0 <= k < j ==> (#[trigger] keys@[k])@ == entry_key(lk[k]),
        decreases kept.len() - j,
    {
        let mut key: Vec<char> = Vec::new();
        key.push(if kept[j].is_directory { '0' } else { '1' });
        let mut lower = chars_of(to_lowercase(kept[j].file_name.as_str()).as_str());
        key.append(&mut lower);
        proof {
            assert(entry_view(kept@[j as int]) == entry_view(lk[j as int]));
            assert(key@ =~= entry_key(lk[j as int]));
        }
        keys.push(key);
        j += 1;
    }
    let order = stable_order(&keys);
    proof {
        assert(keys@.map_values(|k: Vec<char>| k@) =~= lk.map_values(|e: DirEntry| entry_key(e)));
    }
    let mut r: Vec<DirEntry> = Vec::new();
    let mut k: usize = 0;
    while k < order.len()
        invariant
            k <= order.len(),
            order@.len() == kept@.len(),
            kept@.len() == lk.len(),
            forall|m: int| 0 <= m < order@.len() ==> order@[m] < kept@.len(),
            forall|m: int| 0 <= m < kept@.len() ==> entry_view(#[trigger] kept@[m]) == entry_view(lk[m]),
            r@.len() == k,
            forall|m: int|
                0 <= m < k ==> entry_view(#[trigger] r@[m]) == entry_view(lk[order@[m] as int]),
        decreases order.len() - k,
    {
        r.push(entry_copy(&kept[order[k]]));
        k += 1;
    }
    r
}

/// What the asset browser shows: the directory it is in, the root it does
/// not leave, the filter typed, its layout, whether it must read its
/// directory again, and the entries it lists.
pub struct AssetBrowserState {
    pub current_directory: String,
    pub root_directory: String,
    pub filter: String,
    pub view_mode: BrowserViewMode,
    pub needs_refresh: bool,
    pub entries: Vec<DirEntry>,
}

impl AssetBrowserState {
    /// A browser at `cwd`, rooted there, in the grid layout, with nothing
    /// read yet.
    pub fn new(cwd: &str) -> (r: Self)
        ensures
            r.current_directory@ == cwd@,
            r.root_directory@ == cwd@,
            r.filter@.len() == 0,
            r.view_mode == BrowserViewMode::Grid,
            r.needs_refresh,
            r.entries@.len() == 0,
    {
        AssetBrowserState {
            current_directory: cwd.to_owned(),
            root_directory: cwd.to_owned(),
            filter: String::new(),
            view_mode: BrowserViewMode::Grid,
            needs_refresh: true,
            entries: Vec::new(),
        }
    }

    /// On start-up the browser moves into, and is rooted at, the project's
    /// `assets` directory when there is one; it reads its directory either
    /// way.
    pub fn root_at_assets(&mut self, assets_dir: &str, is_dir: bool)
        ensures
            is_dir ==> final(self).current_directory@ == assets_dir@ && final(self).root_directory@ == assets_dir@,
            !is_dir ==> final(self).current_directory@ == old(self).current_directory@
                && final(self).root_directory@ == old(self).root_directory@,
            final(self).needs_refresh,
            final(self).filter == old(self).filter,
            final(self).view_mode == old(self).view_mode,
            final(self).entries == old(self).entries,
    {
        if is_dir {
            self.current_directory = assets_dir.to_owned();
            self.root_directory = assets_dir.to_owned();
        }
        self.needs_refresh = true;
    }

    /// Browsing into a directory, on a double click.
    pub fn open_directory(&mut self, path: &str)
        ensures
            final(self).current_directory@ == path@,
            final(self).root_directory == old(self).root_directory,
            final(self).needs_refresh,
            final(self).filter == old(self).filter,
            final(self).view_mode == old(self).view_mode,
            final(self).entries == old(self).entries,
    {
        self.current_directory = path.to_owned();
        self.needs_refresh = true;
    }

    /// Whether the directory must be read again, which it then no longer
    /// must.
    pub fn take_refresh(&mut self) -> (r: bool)
        ensures
            r == old(self).needs_refresh,
            !final(self).needs_refresh,
            final(self).current_directory == old(self).current_directory,
            final(self).root_directory == old(self).root_directory,
            final(self).filter == old(self).filter,
            final(self).view_mode == old(self).view_mode,
            final(self).entries == old(self).entries,
    {
        let r = self.needs_refresh;
        self.needs_refresh = false;
        r
    }

    /// Records what reading the directory found, listed under the filter.
    pub fn refreshed(&mut self, read: &Vec<DirEntry>)
        ensures
            browser_listing(read@, old(self).filter@, final(self).entries@),
            final(self).filter == old(self).filter,
            final(self).current_directory == old(self).current_directory,
            final(self).root_directory == old(self).root_directory,
            final(self).view_mode == old(self).view_mode,
            final(self).needs_refresh == old(self).needs_refresh,
    {
        let listed = browser_entries(read, self.filter.as_str());
        self.entries = listed;
    }
}

/// `path` with every `sep` spelled ` / `.
pub open spec fn spaced_separators(path: Seq<char>, sep: char) -> Seq<char>
    decreases path.len(),
{
    if path.len() == 0 {
        Seq::empty()
    } else {
        spaced_separators(path.drop_last(), sep) + if path.last() == sep {
            seq![' ', '/', ' ']
        } else {
            seq![path.last()]
        }
    }
}

/// The breadcrumb over the browser, from the current directory relative to
/// the browser's root: `/` at the root, else `/ ` and the relative path with
/// each separator spelled ` / `.
pub fn breadcrumb_text(relative: &str, separator: char) -> (r: String)
    ensures
        r@ == (if relative@.len() == 0 {
            seq!['/']
        } else {
            seq!['/', ' '] + spaced_separators(relative@, separator)
        }),
{
    let path = chars_of(relative);
    let mut out: Vec<char> = Vec::new();
    out.push('/');
    if path.len() == 0 {
        assert(out@ =~= seq!['/']);
        return string_of(&out);
    }
    out.push(' ');
    let mut i: usize = 0;
    while i < path.len()
        invariant
            i <= path.len(),
            path@ == relative@,
            out@ == seq!['/', ' '] + spaced_separators(path@.take(i as int), separator),
        decreases path.len() - i,
    {
        proof {
            assert(path@.take(i + 1).drop_last() =~= path@.take(i as int));
        }
        if path[i] == separator {
            out.push(' ');
            out.push('/');
            out.push(' ');
        } else {
            out.push(path[i]);
        }
        i += 1;
        assert(out@ =~= seq!['/', ' '] + spaced_separators(path@.take(i as int), separator));
    }
    assert(path@.take(path.len() as int) =~= path@);
    string_of(&out)
}

/// The file endings the browser takes for images.
pub open spec fn image_extensions() -> Seq<Seq<char>> {
    seq![
        seq!['.', 'p', 'n', 'g'],
        seq!['.', 'j', 'p', 'g'],
        seq!['.', 'j', 'p', 'e', 'g'],
        seq!['.', 'b', 'm', 'p'],
        seq!['.', 't', 'g', 'a'],
        seq!['.', 'w', 'e', 'b', 'p'],
    ]
}

/// Whether a path names an image: its lower case ends in one of the image
/// extensions.
pub open spec fn is_image_path(path: Seq<char>) -> bool {
    exists|k: int| 0 <= k < image_extensions().len() && ends_with_spec(lowercase_of(path), #[trigger] image_extensions()[k])
}

/// Whether a path names an image file the browser can put on a face.
pub fn is_image_file(path: &str) -> (r: bool)
    ensures
        r == is_image_path(path@),
{
    let lower = chars_of(to_lowercase(path).as_str());
    let exts: Vec<Vec<char>> = vec![
        vec!['.', 'p', 'n', 'g'],
        vec!['.', 'j', 'p', 'g'],
        vec!['.', 'j', 'p', 'e', 'g'],
        vec!['.', 'b', 'm', 'p'],
        vec!['.', 't', 'g', 'a'],
        vec!['.', 'w', 'e', 'b', 'p'],
    ];
    assert(exts@.map_values(|v: Vec<char>| v@) =~= image_extensions());
    let mut k: usize = 0;
    while k < exts.len()
        invariant
            k <= exts.len(),
            exts@.len() == 6,
            exts@.map_values(|v: Vec<char>| v@) == image_extensions(),
            lower@ == lowercase_of(path@),
            forall|j: int| 0 <= j < k ==> !ends_with_spec(lower@, #[trigger] image_extensions()[j]),
        decreases exts.len() - k,
    {
        assert(exts@[k as int]@ == image_extensions()[k as int]);
        if ends_with_chars(&lower, &exts[k]) {
            return true;
        }
        k += 1;
    }
    false
}

/// A path names an image exactly when its lower case ends in `.png`,
/// `.jpg`, `.jpeg`, `.bmp`, `.tga` or `.webp`; so a double click on such a
/// file, while faces of the edited brush are picked in face editing, puts it
/// on them, and on any other file does nothing.
pub proof fn law_image_endings(path: Seq<char>)
    ensures
        is_image_path(path) <==> {
            let l = lowercase_of(path);
            ||| ends_with_spec(l, ".png"@)
            ||| ends_with_spec(l, ".jpg"@)
            ||| ends_with_spec(l, ".jpeg"@)
            ||| ends_with_spec(l, ".bmp"@)
            ||| ends_with_spec(l, ".tga"@)
            ||| ends_with_spec(l, ".webp"@)
        },
{
    reveal_strlit(".png");
    reveal_strlit(".jpg");
    reveal_strlit(".jpeg");
    reveal_strlit(".bmp");
    reveal_strlit(".tga");
    reveal_strlit(".webp");
    let e = image_extensions();
    assert(e[0] =~= ".png"@);
    assert(e[1] =~= ".jpg"@);
    assert(e[2] =~= ".jpeg"@);
    assert(e[3] =~= ".bmp"@);
    assert(e[4] =~= ".tga"@);
    assert(e[5] =~= ".webp"@);
}

/// What a double click on a browser entry does.
#[derive(PartialEq, Eq, Structural, Clone, Copy, Debug)]
pub enum DoubleClick {
    /// Browse into the directory.
    OpenDirectory,
    /// Put the image on the picked faces of the edited brush.
    ApplyTexture,
    Nothing,
}

/// A double click browses into a directory; on an image, while faces of a
/// brush are picked in face editing, it puts the image on them.
pub fn double_click_action(
    is_directory: bool,
    path: &str,
    mode: EditMode,
    faces_picked: bool,
    editing_brush: bool,
) -> (r: DoubleClick)
    ensures
        r == (if is_directory {
            DoubleClick::OpenDirectory
        } else if mode == EditMode::BrushEdit(BrushEditMode::Face) && faces_picked && editing_brush
            && is_image_path(path@) {
            DoubleClick::ApplyTexture
        } else {
            DoubleClick::Nothing
        }),
{
    if is_directory {
        return DoubleClick::OpenDirectory;
    }
    if mode == EditMode::BrushEdit(BrushEditMode::Face) && faces_picked && editing_brush {
        if is_image_file(path) {
            return DoubleClick::ApplyTexture;
        }
    }
    DoubleClick::Nothing
}

} // verus!
