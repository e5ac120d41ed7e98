//! The inspector's decisions: the group a component is filed under, which
//! components the picker offers and in what order, which of them a search
//! shows, which types are not recursed into, and what the add-property row
//! asks for.

use vstd::prelude::*;

use crate::text::{
    char_to_uppercase, chars_eq, chars_of, concat, decimal, pair_keys, pair_le, push_decimal,
    stable_order_by_pair, contains_spec, is_permutation_of_range, key_before,
    lex_le, lowercase_of, stable_order, starts_with_chars, starts_with_spec, str_contains, str_eq,
    string_of, to_lowercase, trim, trim_spec, uppercase_of,
};

verus! {

// ---------------------------------------------------------------------------
// Module groups
// ---------------------------------------------------------------------------

/// Whether a `::` separator starts at `i`.
pub open spec fn sep_at(s: Seq<char>, i: int) -> bool {
    0 <= i && i + 1 < s.len() && s[i] == ':' && s[i + 1] == ':'
}

/// Where the first `::` at or after `i` starts, or the length when there is
/// none.
pub open spec fn first_sep_from(s: Seq<char>, i: int) -> int
    decreases s.len() - i,
{
    if i >= s.len() {
        s.len() as int
    } else if sep_at(s, i) {
        i
    } else {
        first_sep_from(s, i + 1)
    }
}

/// The first segment of a module path: what comes before its first `::`.
pub open spec fn first_segment(s: Seq<char>) -> Seq<char> {
    s.take(first_sep_from(s, 0))
}

/// A segment without its `bevy_` prefix.
pub open spec fn unprefixed(s: Seq<char>) -> Seq<char> {
    if starts_with_spec(s, "bevy_"@) {
        s.skip(5)
    } else {
        s
    }
}

/// The label of a well-known module, by its name with `bevy_` taken off.
pub open spec fn known_group(name: Seq<char>) -> Option<Seq<char>> {
    if name == "pbr"@ || name == "core_pipeline"@ || name == "render"@ {
        Some("Render"@)
    } else if name == "transform"@ {
        Some("Transform"@)
    } else if name == "ecs"@ {
        Some("ECS"@)
    } else if name == "hierarchy"@ {
        Some("Hierarchy"@)
    } else if name == "window"@ || name == "winit"@ {
        Some("Window"@)
    } else if name == "input"@ || name == "picking"@ {
        Some("Input"@)
    } else if name == "asset"@ {
        Some("Asset"@)
    } else if name == "scene"@ {
        Some("Scene"@)
    } else if name == "gltf"@ {
        Some("GLTF"@)
    } else if name == "ui"@ {
        Some("UI"@)
    } else if name == "text"@ {
        Some("Text"@)
    } else if name == "audio"@ {
        Some("Audio"@)
    } else if name == "animation"@ {
        Some("Animation"@)
    } else if name == "sprite"@ {
        Some("Sprite"@)
    } else {
        None
    }
}

/// The group a component is filed under in the inspector, from its module
/// path: the label of a well-known module; any other module's name with its
/// first letter upper-cased; `Other` when there is no path or no name.
pub open spec fn module_group(path: Option<Seq<char>>) -> Seq<char> {
    match path {
        None => "Other"@,
        Some(p) => {
            let name = unprefixed(first_segment(p));
            match known_group(name) {
                Some(label) => label,
                None => if name.len() == 0 {
                    "Other"@
                } else {
                    uppercase_of(name[0]) + name.skip(1)
                },
            }
        },
    }
}

/// No `::` starts before `n` when no `:` stands before it.
proof fn lemma_no_sep_before(s: Seq<char>, n: int, i: int)
    requires
        0 <= i <= n <= s.len(),
        forall|j: int| i <= j < n ==> s[j] != ':',
        first_sep_from(s, n) == n,
    ensures
        first_sep_from(s, i) == n,
    decreases n - i,
{
    if i < n {
        lemma_no_sep_before(s, n, i + 1);
    }
}

/// The first segment of `name` followed by `tail` is `name`, when `name`
/// holds no `:` and `tail` is empty or starts with `::`.
proof fn lemma_first_segment(name: Seq<char>, tail: Seq<char>)
    requires
        forall|i: int| 0 <= i < name.len() ==> name[i] != ':',
        tail.len() == 0 || sep_at(tail, 0),
    ensures
        first_segment(name + tail) == name,
{
    let s = name + tail;
    assert(first_sep_from(s, name.len() as int) == name.len()) by {
        if tail.len() > 0 {
            assert(s[name.len() as int] == tail[0] && s[name.len() as int + 1] == tail[1]);
        }
    }
    assert forall|j: int| 0 <= j < name.len() implies s[j] != ':' by {
        assert(s[j] == name[j]);
    }
    lemma_no_sep_before(s, name.len() as int, 0);
    assert(s.take(name.len() as int) =~= name);
}

/// The group of a module path `bevy_<name>` followed by `tail`: the label
/// of `name` when it is a well-known module.
proof fn lemma_prefixed_group(name: Seq<char>, tail: Seq<char>)
    requires
        forall|i: int| 0 <= i < name.len() ==> name[i] != ':',
        tail.len() == 0 || sep_at(tail, 0),
        known_group(name) is Some,
    ensures
        module_group(Some(("bevy_"@ + name) + tail)) == known_group(name).unwrap(),
{
    reveal_strlit("bevy_");
    let full = "bevy_"@ + name;
    assert forall|i: int| 0 <= i < full.len() implies full[i] != ':' by {
        if i >= 5 {
            assert(full[i] == name[i - 5]);
        }
    }
    lemma_first_segment(full, tail);
    assert(full.take(5) =~= "bevy_"@);
    assert(full.skip(5) =~= name);
}

/// Each well-known module is filed under its own label, whatever follows its
/// first segment: `bevy_audio` under `Audio`, `bevy_animation` under
/// `Animation`, and so on through the whole table.
pub proof fn law_well_known_modules(tail: Seq<char>)
    requires
        tail.len() == 0 || sep_at(tail, 0),
    ensures
        module_group(Some("bevy_pbr"@ + tail)) == "Render"@,
        module_group(Some("bevy_core_pipeline"@ + tail)) == "Render"@,
        module_group(Some("bevy_render"@ + tail)) == "Render"@,
        module_group(Some("bevy_transform"@ + tail)) == "Transform"@,
        module_group(Some("bevy_ecs"@ + tail)) == "ECS"@,
        module_group(Some("bevy_hierarchy"@ + tail)) == "Hierarchy"@,
        module_group(Some("bevy_window"@ + tail)) == "Window"@,
        module_group(Some("bevy_winit"@ + tail)) == "Window"@,
        module_group(Some("bevy_input"@ + tail)) == "Input"@,
        module_group(Some("bevy_picking"@ + tail)) == "Input"@,
        module_group(Some("bevy_asset"@ + tail)) == "Asset"@,
        module_group(Some("bevy_scene"@ + tail)) == "Scene"@,
        module_group(Some("bevy_gltf"@ + tail)) == "GLTF"@,
        module_group(Some("bevy_ui"@ + tail)) == "UI"@,
        module_group(Some("bevy_text"@ + tail)) == "Text"@,
        module_group(Some("bevy_audio"@ + tail)) == "Audio"@,
        module_group(Some("bevy_animation"@ + tail)) == "Animation"@,
        module_group(Some("bevy_sprite"@ + tail)) == "Sprite"@,
{
    reveal_strlit("bevy_");
    reveal_strlit("pbr");
    reveal_strlit("core_pipeline");
    reveal_strlit("render");
    reveal_strlit("transform");
    reveal_strlit("ecs");
    reveal_strlit("hierarchy");
    reveal_strlit("window");
    reveal_strlit("winit");
    reveal_strlit("input");
    reveal_strlit("picking");
    reveal_strlit("asset");
    reveal_strlit("scene");
    reveal_strlit("gltf");
    reveal_strlit("ui");
    reveal_strlit("text");
    reveal_strlit("audio");
    reveal_strlit("animation");
    reveal_strlit("sprite");
    assert("pbr"@.len() != "core_pipeline"@.len());
    assert("pbr"@.len() != "render"@.len());
    assert("pbr"@.len() != "transform"@.len());
    assert("pbr"@[0] != "ecs"@[0]);
    assert("pbr"@.len() != "hierarchy"@.len());
    assert("pbr"@.len() != "window"@.len());
    assert("pbr"@.len() != "winit"@.len());
    assert("pbr"@.len() != "input"@.len());
    assert("pbr"@.len() != "picking"@.len());
    assert("pbr"@.len() != "asset"@.len());
    assert("pbr"@.len() != "scene"@.len());
    assert("pbr"@.len() != "gltf"@.len());
    assert("pbr"@.len() != "ui"@.len());
    assert("pbr"@.len() != "text"@.len());
    assert("pbr"@.len() != "audio"@.len());
    assert("pbr"@.len() != "animation"@.len());
    assert("pbr"@.len() != "sprite"@.len());
    assert("core_pipeline"@.len() != "render"@.len());
    assert("core_pipeline"@.len() != "transform"@.len());
    assert("core_pipeline"@.len() != "ecs"@.len());
    assert("core_pipeline"@.len() != "hierarchy"@.len());
    assert("core_pipeline"@.len() != "window"@.len());
    assert("core_pipeline"@.len() != "winit"@.len());
    assert("core_pipeline"@.len() != "input"@.len());
    assert("core_pipeline"@.len() != "picking"@.len());
    assert("core_pipeline"@.len() != "asset"@.len());
    assert("core_pipeline"@.len() != "scene"@.len());
    assert("core_pipeline"@.len() != "gltf"@.len());
    assert("core_pipeline"@.len() != "ui"@.len());
    assert("core_pipeline"@.len() != "text"@.len());
    assert("core_pipeline"@.len() != "audio"@.len());
    assert("core_pipeline"@.len() != "animation"@.len());
    assert("core_pipeline"@.len() != "sprite"@.len());
    assert("render"@.len() != "transform"@.len());
    assert("render"@.len() != "ecs"@.len());
    assert("render"@.len() != "hierarchy"@.len());
    assert("render"@[0] != "window"@[0]);
    assert("render"@.len() != "winit"@.len());
    assert("render"@.len() != "input"@.len());
    assert("render"@.len() != "picking"@.len());
    assert("render"@.len() != "asset"@.len());
    assert("render"@.len() != "scene"@.len());
    assert("render"@.len() != "gltf"@.len());
    assert("render"@.len() != "ui"@.len());
    assert("render"@.len() != "text"@.len());
    assert("render"@.len() != "audio"@.len());
    assert("render"@.len() != "animation"@.len());
    assert("render"@[0] != "sprite"@[0]);
    assert("transform"@.len() != "ecs"@.len());
    assert("transform"@[0] != "hierarchy"@[0]);
    assert("transform"@.len() != "window"@.len());
    assert("transform"@.len() != "winit"@.len());
    assert("transform"@.len() != "input"@.len());
    assert("transform"@.len() != "picking"@.len());
    assert("transform"@.len() != "asset"@.len());
    assert("transform"@.len() != "scene"@.len());
    assert("transform"@.len() != "gltf"@.len());
    assert("transform"@.len() != "ui"@.len());
    assert("transform"@.len() != "text"@.len());
    assert("transform"@.len() != "audio"@.len());
    assert("transform"@[0] != "animation"@[0]);
    assert("transform"@.len() != "sprite"@.len());
    assert("ecs"@.len() != "hierarchy"@.len());
    assert("ecs"@.len() != "window"@.len());
    assert("ecs"@.len() != "winit"@.len());
    assert("ecs"@.len() != "input"@.len());
    assert("ecs"@.len() != "picking"@.len());
    assert("ecs"@.len() != "asset"@.len());
    assert("ecs"@.len() != "scene"@.len());
    assert("ecs"@.len() != "gltf"@.len());
    assert("ecs"@.len() != "ui"@.len());
    assert("ecs"@.len() != "text"@.len());
    assert("ecs"@.len() != "audio"@.len());
    assert("ecs"@.len() != "animation"@.len());
    assert("ecs"@.len() != "sprite"@.len());
    assert("hierarchy"@.len() != "window"@.len());
    assert("hierarchy"@.len() != "winit"@.len());
    assert("hierarchy"@.len() != "input"@.len());
    assert("hierarchy"@.len() != "picking"@.len());
    assert("hierarchy"@.len() != "asset"@.len());
    assert("hierarchy"@.len() != "scene"@.len());
    assert("hierarchy"@.len() != "gltf"@.len());
    assert("hierarchy"@.len() != "ui"@.len());
    assert("hierarchy"@.len() != "text"@.len());
    assert("hierarchy"@.len() != "audio"@.len());
    assert("hierarchy"@[0] != "animation"@[0]);
    assert("hierarchy"@.len() != "sprite"@.len());
    assert("window"@.len() != "winit"@.len());
    assert("window"@.len() != "input"@.len());
    assert("window"@.len() != "picking"@.len());
    assert("window"@.len() != "asset"@.len());
    assert("window"@.len() != "scene"@.len());
    assert("window"@.len() != "gltf"@.len());
    assert("window"@.len() != "ui"@.len());
    assert("window"@.len() != "text"@.len());
    assert("window"@.len() != "audio"@.len());
    assert("window"@.len() != "animation"@.len());
    assert("window"@[0] != "sprite"@[0]);
    assert("winit"@[0] != "input"@[0]);
    assert("winit"@.len() != "picking"@.len());
    assert("winit"@[0] != "asset"@[0]);
    assert("winit"@[0] != "scene"@[0]);
    assert("winit"@.len() != "gltf"@.len());
    assert("winit"@.len() != "ui"@.len());
    assert("winit"@.len() != "text"@.len());
    assert("winit"@[0] != "audio"@[0]);
    assert("winit"@.len() != "animation"@.len());
    assert("winit"@.len() != "sprite"@.len());
    assert("input"@.len() != "picking"@.len());
    assert("input"@[0] != "asset"@[0]);
    assert("input"@[0] != "scene"@[0]);
    assert("input"@.len() != "gltf"@.len());
    assert("input"@.len() != "ui"@.len());
    assert("input"@.len() != "text"@.len());
    assert("input"@[0] != "audio"@[0]);
    assert("input"@.len() != "animation"@.len());
    assert("input"@.len() != "sprite"@.len());
    assert("picking"@.len() != "asset"@.len());
    assert("picking"@.len() != "scene"@.len());
    assert("picking"@.len() != "gltf"@.len());
    assert("picking"@.len() != "ui"@.len());
    assert("picking"@.len() != "text"@.len());
    assert("picking"@.len() != "audio"@.len());
    assert("picking"@.len() != "animation"@.len());
    assert("picking"@.len() != "sprite"@.len());
    assert("asset"@[0] != "scene"@[0]);
    assert("asset"@.len() != "gltf"@.len());
    assert("asset"@.len() != "ui"@.len());
    assert("asset"@.len() != "text"@.len());
    assert("asset"@[1] != "audio"@[1]);
    assert("asset"@.len() != "animation"@.len());
    assert("asset"@.len() != "sprite"@.len());
    assert("scene"@.len() != "gltf"@.len());
    assert("scene"@.len() != "ui"@.len());
    assert("scene"@.len() != "text"@.len());
    assert("scene"@[0] != "audio"@[0]);
    assert("scene"@.len() != "animation"@.len());
    assert("scene"@.len() != "sprite"@.len());
    assert("gltf"@.len() != "ui"@.len());
    assert("gltf"@[0] != "text"@[0]);
    assert("gltf"@.len() != "audio"@.len());
    assert("gltf"@.len() != "animation"@.len());
    assert("gltf"@.len() != "sprite"@.len());
    assert("ui"@.len() != "text"@.len());
    assert("ui"@.len() != "audio"@.len());
    assert("ui"@.len() != "animation"@.len());
    assert("ui"@.len() != "sprite"@.len());
    assert("text"@.len() != "audio"@.len());
    assert("text"@.len() != "animation"@.len());
    assert("text"@.len() != "sprite"@.len());
    assert("audio"@.len() != "animation"@.len());
    assert("audio"@.len() != "sprite"@.len());
    assert("animation"@.len() != "sprite"@.len());
    lemma_prefixed_group("pbr"@, tail);
    reveal_strlit("bevy_pbr");
    assert("bevy_pbr"@ =~= "bevy_"@ + "pbr"@);
    lemma_prefixed_group("core_pipeline"@, tail);
    reveal_strlit("bevy_core_pipeline");
    assert("bevy_core_pipeline"@ =~= "bevy_"@ + "core_pipeline"@);
    lemma_prefixed_group("render"@, tail);
    reveal_strlit("bevy_render");
    assert("bevy_render"@ =~= "bevy_"@ + "render"@);
    lemma_prefixed_group("transform"@, tail);
    reveal_strlit("bevy_transform");
    assert("bevy_transform"@ =~= "bevy_"@ + "transform"@);
    lemma_prefixed_group("ecs"@, tail);
    reveal_strlit("bevy_ecs");
    assert("bevy_ecs"@ =~= "bevy_"@ + "ecs"@);
    lemma_prefixed_group("hierarchy"@, tail);
    reveal_strlit("bevy_hierarchy");
    assert("bevy_hierarchy"@ =~= "bevy_"@ + "hierarchy"@);
    lemma_prefixed_group("window"@, tail);
    reveal_strlit("bevy_window");
    assert("bevy_window"@ =~= "bevy_"@ + "window"@);
    lemma_prefixed_group("winit"@, tail);
    reveal_strlit("bevy_winit");
    assert("bevy_winit"@ =~= "bevy_"@ + "winit"@);
    lemma_prefixed_group("input"@, tail);
    reveal_strlit("bevy_input");
    assert("bevy_input"@ =~= "bevy_"@ + "input"@);
    lemma_prefixed_group("picking"@, tail);
    reveal_strlit("bevy_picking");
    assert("bevy_picking"@ =~= "bevy_"@ + "picking"@);
    lemma_prefixed_group("asset"@, tail);
    reveal_strlit("bevy_asset");
    assert("bevy_asset"@ =~= "bevy_"@ + "asset"@);
    lemma_prefixed_group("scene"@, tail);
    reveal_strlit("bevy_scene");
    assert("bevy_scene"@ =~= "bevy_"@ + "scene"@);
    lemma_prefixed_group("gltf"@, tail);
    reveal_strlit("bevy_gltf");
    assert("bevy_gltf"@ =~= "bevy_"@ + "gltf"@);
    lemma_prefixed_group("ui"@, tail);
    reveal_strlit("bevy_ui");
    assert("bevy_ui"@ =~= "bevy_"@ + "ui"@);
    lemma_prefixed_group("text"@, tail);
    reveal_strlit("bevy_text");
    assert("bevy_text"@ =~= "bevy_"@ + "text"@);
    lemma_prefixed_group("audio"@, tail);
    reveal_strlit("bevy_audio");
    assert("bevy_audio"@ =~= "bevy_"@ + "audio"@);
    lemma_prefixed_group("animation"@, tail);
    reveal_strlit("bevy_animation");
    assert("bevy_animation"@ =~= "bevy_"@ + "animation"@);
    lemma_prefixed_group("sprite"@, tail);
    reveal_strlit("bevy_sprite");
    assert("bevy_sprite"@ =~= "bevy_"@ + "sprite"@);
}

/// The label of a well-known module, by its name.
fn known_group_of(name: &str) -> (r: Option<String>)
    ensures
        match r {
            Some(l) => known_group(name@) == Some(l@),
            None => known_group(name@) is None,
        },
{
    let label = if str_eq(name, "pbr") || str_eq(name, "core_pipeline") || str_eq(name, "render") {
        "Render"
    } else if str_eq(name, "transform") {
        "Transform"
    } else if str_eq(name, "ecs") {
        "ECS"
    } else if str_eq(name, "hierarchy") {
        "Hierarchy"
    } else if str_eq(name, "window") || str_eq(name, "winit") {
        "Window"
    } else if str_eq(name, "input") || str_eq(name, "picking") {
        "Input"
    } else if str_eq(name, "asset") {
        "Asset"
    } else if str_eq(name, "scene") {
        "Scene"
    } else if str_eq(name, "gltf") {
        "GLTF"
    } else if str_eq(name, "ui") {
        "UI"
    } else if str_eq(name, "text") {
        "Text"
    } else if str_eq(name, "audio") {
        "Audio"
    } else if str_eq(name, "animation") {
        "Animation"
    } else if str_eq(name, "sprite") {
        "Sprite"
    } else {
        return None;
    };
    Some(label.to_owned())
}

/// The characters of `v` from `lo` up to `hi`.
fn slice_chars(v: &Vec<char>, lo: usize, hi: usize) -> (r: Vec<char>)
    requires
        lo <= hi <= v.len(),
    ensures
        r@ == v@.subrange(lo as int, hi as int),
{
    let mut r: Vec<char> = Vec::new();
    let mut i = lo;
    while i < hi
        invariant
            lo <= i <= hi <= v.len(),
            r@ == v@.subrange(lo as int, i as int),
        decreases hi - i,
    {
        r.push(v[i]);
        i += 1;
    }
    r
}

/// The group a component is filed under in the inspector, from its module
/// path, e.g. `bevy_pbr::material` is filed under `Render` and
/// `bevy_transform` under `Transform`.
pub fn extract_module_group(module: Option<&str>) -> (r: String)
    ensures
        r@ == module_group(match module {
            Some(p) => Some(p@),
            None => None,
        }),
{
    let path = match module {
        Some(p) => p,
        None => return "Other".to_owned(),
    };
    let v = chars_of(path);
    let mut i: usize = 0;
    while i < v.len() && !(i + 1 < v.len() && v[i] == ':' && v[i + 1] == ':')
        invariant
            i <= v.len(),
            v@ == path@,
            first_sep_from(v@, 0) == first_sep_from(v@, i as int),
        decreases v.len() - i,
    {
        i += 1;
    }
    let first = slice_chars(&v, 0, i);
    assert(first@ == first_segment(path@));
    let prefix: Vec<char> = vec!['b', 'e', 'v', 'y', '_'];
    proof {
        reveal_strlit("bevy_");
        assert(prefix@ =~= "bevy_"@);
    }
    let name = if starts_with_chars(&first, &prefix) {
        slice_chars(&first, 5, first.len())
    } else {
        first
    };
    assert(name@ =~= unprefixed(first_segment(path@)));
    let name_str = string_of(&name);
    match known_group_of(name_str.as_str()) {
        Some(label) => label,
        None => {
            if name.len() == 0 {
                "Other".to_owned()
            } else {
                let head = char_to_uppercase(name[0]);
                let rest = string_of(&slice_chars(&name, 1, name.len()));
                assert(rest@ =~= name@.skip(1));
                concat(head.as_str(), rest.as_str())
            }
        },
    }
}

// ---------------------------------------------------------------------------
// Rows of reflected fields
// ---------------------------------------------------------------------------

/// How deep the inspector opens nested values.
pub const MAX_REFLECT_DEPTH: usize = 4;

/// What a reflected field holds, as far as choosing its row goes; the
/// collections (list, array, map as `Dict`, set as `Bag`) carry their length.
#[derive(Debug, Clone, Copy, PartialEq, Eq, Structural)]
pub enum FieldShape {
    EntityRef,
    List(usize),
    Array(usize),
    Dict(usize),
    Bag(usize),
    Vec3,
    Vec2,
    Color,
    Bool,
    /// A float or an integer.
    Number,
    /// A `String`.
    Text,
    /// An enum, and whether it can be reflected whole (and so edited).
    Enum(bool),
    Struct,
    TupleStruct,
    Tuple,
    /// Anything else.
    Other,
}

/// The row the inspector builds for a field.
#[derive(Debug, Clone, Copy, PartialEq, Eq, Structural)]
pub enum FieldRow {
    /// A link that selects the entity referred to.
    EntityLink,
    /// A count, then a row per item.
    Items,
    Vec3Row,
    Vec2Row,
    ColorPicker,
    Toggle,
    NumberInput,
    /// A drop-down of the enum's variants.
    EnumChoice,
    /// The enum's variant name, read-only.
    VariantName,
    /// A one-line summary of a value not opened.
    Summary,
    /// A text field holding the value.
    EditableText,
    /// The value as text, read-only.
    ReadOnlyText,
    /// A header, then a row per field, one level deeper.
    Nested,
}

/// Whether a field is a struct, a tuple struct or a tuple.
pub open spec fn compound(shape: FieldShape) -> bool {
    shape == FieldShape::Struct || shape == FieldShape::TupleStruct || shape == FieldShape::Tuple
}

/// The row for a field of `shape`, `opaque` saying whether its type is one
/// the inspector does not open, `depth` how deep it sits: entity links,
/// collections, vectors, colours, switches, numbers and enums get their own
/// rows; an opaque struct a summary; past the depth limit, or for anything
/// else that is not a struct or tuple, a text field for a string and the
/// value as text otherwise; and a struct or tuple opens one level deeper.
pub open spec fn field_row_spec(shape: FieldShape, opaque: bool, depth: nat) -> FieldRow {
    match shape {
        FieldShape::EntityRef => FieldRow::EntityLink,
        FieldShape::List(_) | FieldShape::Array(_) | FieldShape::Dict(_) | FieldShape::Bag(_) => FieldRow::Items,
        FieldShape::Vec3 => FieldRow::Vec3Row,
        FieldShape::Vec2 => FieldRow::Vec2Row,
        FieldShape::Color => FieldRow::ColorPicker,
        FieldShape::Bool => FieldRow::Toggle,
        FieldShape::Number => FieldRow::NumberInput,
        FieldShape::Enum(reflected) => if reflected {
            FieldRow::EnumChoice
        } else {
            FieldRow::VariantName
        },
        _ => if compound(shape) && opaque {
            FieldRow::Summary
        } else if depth >= MAX_REFLECT_DEPTH || !compound(shape) {
            if shape == FieldShape::Text {
                FieldRow::EditableText
            } else {
                FieldRow::ReadOnlyText
            }
        } else {
            FieldRow::Nested
        },
    }
}

/// Each kind of field gets the row made for it, at any depth and whether or
/// not its type is opened: an entity link for an entity, an item list for a
/// list, array, map or set, a two-axis row for a `Vec2` and a three-axis row
/// for a `Vec3`, a colour picker for a colour, a toggle for a switch, a
/// numeric field for a number, a variant choice for a reflected enum and its
/// variant name otherwise; a string gets a text field and anything else its
/// value as text, never a nested block; a struct or tuple within the depth
/// limit opens one level deeper unless its type is not opened, when it gets a
/// summary; past the limit it shows as text.
pub proof fn law_field_rows(opaque: bool, depth: nat, n: usize)
    ensures
        field_row_spec(FieldShape::EntityRef, opaque, depth) == FieldRow::EntityLink,
        field_row_spec(FieldShape::List(n), opaque, depth) == FieldRow::Items,
        field_row_spec(FieldShape::Array(n), opaque, depth) == FieldRow::Items,
        field_row_spec(FieldShape::Dict(n), opaque, depth) == FieldRow::Items,
        field_row_spec(FieldShape::Bag(n), opaque, depth) == FieldRow::Items,
        field_row_spec(FieldShape::Vec2, opaque, depth) == FieldRow::Vec2Row,
        field_row_spec(FieldShape::Vec3, opaque, depth) == FieldRow::Vec3Row,
        field_row_spec(FieldShape::Color, opaque, depth) == FieldRow::ColorPicker,
        field_row_spec(FieldShape::Bool, opaque, depth) == FieldRow::Toggle,
        field_row_spec(FieldShape::Number, opaque, depth) == FieldRow::NumberInput,
        field_row_spec(FieldShape::Enum(true), opaque, depth) == FieldRow::EnumChoice,
        field_row_spec(FieldShape::Enum(false), opaque, depth) == FieldRow::VariantName,
        field_row_spec(FieldShape::Text, opaque, depth) == FieldRow::EditableText,
        field_row_spec(FieldShape::Other, opaque, depth) == FieldRow::ReadOnlyText,
        field_row_spec(FieldShape::Struct, true, depth) == FieldRow::Summary,
        field_row_spec(FieldShape::Tuple, true, depth) == FieldRow::Summary,
        field_row_spec(FieldShape::TupleStruct, true, depth) == FieldRow::Summary,
        depth < 4 ==> field_row_spec(FieldShape::Struct, false, depth) == FieldRow::Nested,
        depth < 4 ==> field_row_spec(FieldShape::Tuple, false, depth) == FieldRow::Nested,
        depth < 4 ==> field_row_spec(FieldShape::TupleStruct, false, depth) == FieldRow::Nested,
        depth >= 4 ==> field_row_spec(FieldShape::Struct, false, depth) == FieldRow::ReadOnlyText,
{
}

/// The row the inspector builds for a field; see `field_row_spec`.
pub fn field_row(shape: FieldShape, opaque: bool, depth: usize) -> (r: FieldRow)
    ensures
        r == field_row_spec(shape, opaque, depth as nat),
{
    match shape {
        FieldShape::EntityRef => FieldRow::EntityLink,
        FieldShape::List(_) | FieldShape::Array(_) | FieldShape::Dict(_) | FieldShape::Bag(_) => FieldRow::Items,
        FieldShape::Vec3 => FieldRow::Vec3Row,
        FieldShape::Vec2 => FieldRow::Vec2Row,
        FieldShape::Color => FieldRow::ColorPicker,
        FieldShape::Bool => FieldRow::Toggle,
        FieldShape::Number => FieldRow::NumberInput,
        FieldShape::Enum(reflected) => if reflected {
            FieldRow::EnumChoice
        } else {
            FieldRow::VariantName
        },
        _ => {
            let is_compound = shape == FieldShape::Struct || shape == FieldShape::TupleStruct || shape
                == FieldShape::Tuple;
            if is_compound && opaque {
                FieldRow::Summary
            } else if depth >= MAX_REFLECT_DEPTH || !is_compound {
                if shape == FieldShape::Text {
                    FieldRow::EditableText
                } else {
                    FieldRow::ReadOnlyText
                }
            } else {
                FieldRow::Nested
            }
        },
    }
}

/// Every field row is built from what the field holds: rows only nest above
/// the depth limit, so a value is never opened deeper than it.
pub proof fn law_rows_nest_within_depth(shape: FieldShape, opaque: bool, depth: nat)
    ensures
        field_row_spec(shape, opaque, depth) == FieldRow::Nested ==> depth < MAX_REFLECT_DEPTH && compound(shape)
            && !opaque,
        depth >= MAX_REFLECT_DEPTH ==> field_row_spec(shape, opaque, depth) != FieldRow::Nested,
{
}

/// The path of an item of a list, an array or a map, under the field's own
/// path: `[<key>]`, after the field's path when it has one.
pub fn item_path(field_path: &str, key: &str) -> (r: String)
    ensures
        r@ == (if field_path@.len() == 0 {
            seq!['['] + key@ + seq![']']
        } else {
            field_path@ + seq!['['] + key@ + seq![']']
        }),
{
    let mut v = chars_of(field_path);
    v.push('[');
    let mut k = chars_of(key);
    v.append(&mut k);
    v.push(']');
    string_of(&v)
}

/// The path of a field of a struct or tuple: `<path>.<field>`.
pub fn member_path(field_path: &str, member: &str) -> (r: String)
    ensures
        r@ == field_path@ + seq!['.'] + member@,
{
    let mut v = chars_of(field_path);
    v.push('.');
    let mut m = chars_of(member);
    v.append(&mut m);
    string_of(&v)
}

/// The path of a component's own field: a named field of a component at
/// its root is its name alone, anything else hangs after `<path>.`.
pub fn top_field_path(base_path: &str, member: &str, named: bool) -> (r: String)
    ensures
        r@ == (if named && base_path@.len() == 0 {
            member@
        } else {
            base_path@ + seq!['.'] + member@
        }),
{
    if named && chars_of(base_path).len() == 0 {
        return string_of(&chars_of(member));
    }
    member_path(base_path, member)
}

/// The line over the items of a component that is itself a collection:
/// `[<n> items]` for a list or an array, `{ <n> entries }` for a map,
/// `{ <n> items }` for a set.
pub fn top_items_header(shape: FieldShape) -> (r: Option<String>)
    ensures
        match shape {
            FieldShape::List(n) | FieldShape::Array(n) => r matches Some(h) && h@ == "["@ + decimal(n as nat)
                + " items]"@,
            FieldShape::Dict(n) => r matches Some(h) && h@ == "{ "@ + decimal(n as nat) + " entries }"@,
            FieldShape::Bag(n) => r matches Some(h) && h@ == "{ "@ + decimal(n as nat) + " items }"@,
            _ => r is None,
        },
{
    let (count, open, close) = match shape {
        FieldShape::List(n) | FieldShape::Array(n) => (n, "[", " items]"),
        FieldShape::Dict(n) => (n, "{ ", " entries }"),
        FieldShape::Bag(n) => (n, "{ ", " items }"),
        _ => return None,
    };
    let mut v = chars_of(open);
    push_decimal(&mut v, count as u64);
    let mut c = chars_of(close);
    v.append(&mut c);
    Some(string_of(&v))
}

/// The line over a collection's items: `<name>: [<n> items]` for a list or
/// an array, `<name>: { <n> entries }` for a map, `<name>: { <n> items }` for
/// a set; none for any other field.
pub fn items_header(name: &str, shape: FieldShape) -> (r: Option<String>)
    ensures
        match shape {
            FieldShape::List(n) | FieldShape::Array(n) => r matches Some(h) && h@ == name@ + ": ["@ + decimal(
                n as nat,
            ) + " items]"@,
            FieldShape::Dict(n) => r matches Some(h) && h@ == name@ + ": { "@ + decimal(n as nat) + " entries }"@,
            FieldShape::Bag(n) => r matches Some(h) && h@ == name@ + ": { "@ + decimal(n as nat) + " items }"@,
            _ => r is None,
        },
{
    let (count, open, close) = match shape {
        FieldShape::List(n) | FieldShape::Array(n) => (n, ": [", " items]"),
        FieldShape::Dict(n) => (n, ": { ", " entries }"),
        FieldShape::Bag(n) => (n, ": { ", " items }"),
        _ => return None,
    };
    let mut v = chars_of(name);
    let mut o = chars_of(open);
    v.append(&mut o);
    push_decimal(&mut v, count as u64);
    let mut c = chars_of(close);
    v.append(&mut c);
    Some(string_of(&v))
}

/// The variant a drop-down of an enum's variants starts on: the first one
/// named like the value's variant, or the first of all when none is.
pub fn selected_variant_index(names: &Vec<String>, current: &str) -> (r: usize)
    ensures
        (exists|i: int| 0 <= i < names@.len() && (#[trigger] names@[i])@ == current@) ==> (r < names@.len()
            && names@[r as int]@ == current@ && forall|k: int| 0 <= k < r ==> (#[trigger] names@[k])@ != current@),
        !(exists|i: int| 0 <= i < names@.len() && (#[trigger] names@[i])@ == current@) ==> r == 0,
{
    let mut i: usize = 0;
    while i < names.len()
        invariant
            i <= names.len(),
            forall|k: int| 0 <= k < i ==> (#[trigger] names@[k])@ != current@,
        decreases names.len() - i,
    {
        if str_eq(names[i].as_str(), current) {
            return i;
        }
        i += 1;
    }
    0
}

// ---------------------------------------------------------------------------
// The component list
// ---------------------------------------------------------------------------

/// One component of the inspected entity, as the inspector lists it: its
/// type path (or, for a type the registry does not know, its name), the
/// short name shown, and the module it comes from when the registry knows it.
pub struct ComponentListing {
    pub type_path: String,
    pub short_name: String,
    pub module: Option<String>,
}

/// One row of the component list: the listing it shows, its group, and
/// whether a group header comes before it.
pub struct ComponentRow {
    pub index: usize,
    pub group: String,
    pub starts_group: bool,
}

/// Whether the inspector leaves a component out: the editor's own.
pub open spec fn listing_hidden(c: ComponentListing) -> bool {
    starts_with_spec(c.type_path@, "bevy_scene_editor"@)
}

/// The group a listed component is filed under.
pub open spec fn listing_group(c: ComponentListing) -> Seq<char> {
    module_group(match c.module {
        Some(m) => Some(m@),
        None => None,
    })
}

/// What the list is sorted by: the group, then the short name in lower case.
pub open spec fn listing_key(c: ComponentListing) -> (Seq<char>, Seq<char>) {
    (listing_group(c), lowercase_of(c.short_name@))
}

/// The listings the rows show, in order.
pub open spec fn row_indices(rows: Seq<ComponentRow>) -> Seq<usize> {
    Seq::new(rows.len(), |k: int| rows[k].index)
}

/// The component list of the inspected entity: every component but the
/// editor's own, once, sorted by group and then by lower-cased short name
/// (ties in the order given), with a header before each row whose group
/// differs from the row above it.
pub fn component_display_order(listings: &Vec<ComponentListing>) -> (r: Vec<ComponentRow>)
    ensures
        row_indices(r@).no_duplicates(),
        forall|k: int| 0 <= k < r@.len() ==> (#[trigger] r@[k]).index < listings@.len() && !listing_hidden(listings@[r@[k].index as int]),
        forall|i: usize| i < listings@.len() && !listing_hidden(#[trigger] listings@[i as int]) ==> row_indices(r@).contains(i),
        forall|k: int| 0 <= k < r@.len() ==> (#[trigger] r@[k]).group@ == listing_group(listings@[r@[k].index as int]),
        forall|a: int, b: int|
            0 <= a < b < r@.len() ==> ({
                let ka = listing_key(listings@[(#[trigger] r@[a]).index as int]);
                let kb = listing_key(listings@[(#[trigger] r@[b]).index as int]);
                pair_le(ka, kb) && (ka != kb || r@[a].index < r@[b].index)
            }),
        forall|k: int|
            0 <= k < r@.len() ==> (#[trigger] r@[k]).starts_group == (if k == 0 {
                r@[k].group@ != Seq::<char>::empty()
            } else {
                r@[k - 1].group@ != r@[k].group@
            }),
{
    let editor = chars_of("bevy_scene_editor");
    let mut kept: Vec<usize> = Vec::new();
    let mut groups: Vec<Vec<char>> = Vec::new();
    let mut names: Vec<Vec<char>> = Vec::new();
    let mut i: usize = 0;
    while i < listings.len()
        invariant
            i <= listings.len(),
            editor@ == "bevy_scene_editor"@,
            groups@.len() == kept@.len(),
            names@.len() == kept@.len(),
            forall|a: int, b: int| 0 <= a < b < kept@.len() ==> kept@[a] < kept@[b],
            forall|k: int| 0 <= k < kept@.len() ==> #[trigger] kept@[k] < i,
            forall|k: int| 0 <= k < kept@.len() ==> !listing_hidden(#[trigger] listings@[kept@[k] as int]),
            forall|k: int| 0 <= k < kept@.len() ==> (#[trigger] groups@[k])@ == listing_group(listings@[kept@[k] as int]),
            forall|k: int| 0 <= k < kept@.len() ==> (#[trigger] names@[k])@ == lowercase_of(listings@[kept@[k] as int].short_name@),
            forall|j: usize| j < i && !listing_hidden(#[trigger] listings@[j as int]) ==> kept@.contains(j),
        decreases listings.len() - i,
    {
        let c = &listings[i];
        let path = chars_of(c.type_path.as_str());
        if !starts_with_chars(&path, &editor) {
            let group = match &c.module {
                Some(m) => extract_module_group(Some(m.as_str())),
                None => extract_module_group(None),
            };
            let lower = to_lowercase(c.short_name.as_str());
            let ghost before = kept@;
            let ghost before_groups = groups@;
            let ghost before_names = names@;
            kept.push(i);
            groups.push(chars_of(group.as_str()));
            names.push(chars_of(lower.as_str()));
            proof {
                assert(kept@[before.len() as int] == i);
                assert forall|a: int, b: int| 0 <= a < b < kept@.len() implies kept@[a] < kept@[b] by {
                    assert(kept@[a] == before[a] || a == before.len());
                    if b < before.len() {
                        assert(kept@[b] == before[b]);
                    }
                }
                assert forall|k: int| 0 <= k < kept@.len() implies #[trigger] kept@[k] < i + 1 by {
                    if k < before.len() {
                        assert(kept@[k] == before[k]);
                    }
                }
                assert forall|k: int| 0 <= k < kept@.len() implies !listing_hidden(
                    #[trigger] listings@[kept@[k] as int],
                ) by {
                    if k < before.len() {
                        assert(kept@[k] == before[k]);
                    }
                }
                assert forall|k: int| 0 <= k < kept@.len() implies (#[trigger] groups@[k])@ == listing_group(
                    listings@[kept@[k] as int],
                ) by {
                    if k < before.len() {
                        assert(kept@[k] == before[k]);
                        assert(groups@[k] == before_groups[k]);
                    }
                }
                assert forall|k: int| 0 <= k < kept@.len() implies (#[trigger] names@[k])@ == lowercase_of(
                    listings@[kept@[k] as int].short_name@,
                ) by {
                    if k < before.len() {
                        assert(kept@[k] == before[k]);
                        assert(names@[k] == before_names[k]);
                    }
                }
                assert forall|j: usize| j < i + 1 && !listing_hidden(#[trigger] listings@[j as int]) implies kept@.contains(j) by {
                    if j < i {
                        let k = choose|k: int| 0 <= k < before.len() && before[k] == j;
                        assert(kept@[k] == j);
                    }
                }
            }
        }
        i += 1;
    }
    let order = stable_order_by_pair(&groups, &names);
    let ghost ks = pair_keys(groups@, names@);
    let mut r: Vec<ComponentRow> = Vec::new();
    let mut prev: Vec<char> = Vec::new();
    let mut j: usize = 0;
    while j < order.len()
        invariant
            j <= order.len(),
            is_permutation_of_range(order@, groups@.len()),
            groups@.len() == kept@.len(),
            names@.len() == kept@.len(),
            ks == pair_keys(groups@, names@),
            r@.len() == j,
            j == 0 ==> prev@ == Seq::<char>::empty(),
            j > 0 ==> prev@ == r@[j - 1].group@,
            forall|k: int| 0 <= k < j ==> (#[trigger] r@[k]).index == kept@[order@[k] as int],
            forall|k: int| 0 <= k < j ==> (#[trigger] r@[k]).group@ == groups@[order@[k] as int]@,
            forall|k: int|
                0 <= k < j ==> (#[trigger] r@[k]).starts_group == (if k == 0 {
                    r@[k].group@ != Seq::<char>::empty()
                } else {
                    r@[k - 1].group@ != r@[k].group@
                }),
        decreases order.len() - j,
    {
        let o = order[j];
        let g = groups[o].clone();
        let starts = !chars_eq(&prev, &g);
        let row = ComponentRow { index: kept[o], group: string_of(&g), starts_group: starts };
        r.push(row);
        prev = g;
        j += 1;
    }
    proof {
        assert forall|k: int| 0 <= k < r@.len() implies (#[trigger] r@[k]).index < listings@.len() && !listing_hidden(
            listings@[r@[k].index as int],
        ) by {
            assert(order@[k] < kept@.len());
            assert(kept@[order@[k] as int] < listings@.len());
        }
        assert forall|k: int| 0 <= k < r@.len() implies (#[trigger] r@[k]).group@ == listing_group(
            listings@[r@[k].index as int],
        ) by {
            assert(order@[k] < kept@.len());
        }
        let idx = row_indices(r@);
        assert forall|x: int, y: int| 0 <= x < idx.len() && 0 <= y < idx.len() && x != y implies idx[x] != idx[y] by {
            let ox = order@[x] as int;
            let oy = order@[y] as int;
            assert(r@[x].index == kept@[ox]);
            assert(r@[y].index == kept@[oy]);
            assert(ox != oy);
            if ox < oy {
                assert(kept@[ox] < kept@[oy]);
            } else {
                assert(kept@[oy] < kept@[ox]);
            }
        }
        assert forall|c: usize| c < listings@.len() && !listing_hidden(#[trigger] listings@[c as int]) implies idx.contains(c) by {
            let k = choose|k: int| 0 <= k < kept@.len() && kept@[k] == c;
            let ku = k as usize;
            assert(order@.contains(ku));
            let p = choose|p: int| 0 <= p < order@.len() && order@[p] == ku;
            assert(r@[p].index == c);
            assert(idx[p] == c);
        }
        assert forall|a: int, b: int| 0 <= a < b < r@.len() implies ({
            let ka = listing_key(listings@[(#[trigger] r@[a]).index as int]);
            let kb = listing_key(listings@[(#[trigger] r@[b]).index as int]);
            pair_le(ka, kb) && (ka != kb || r@[a].index < r@[b].index)
        }) by {
            let oa = order@[a] as int;
            let ob = order@[b] as int;
            assert(crate::text::pair_before(ks, oa, ob));
            assert(ks[oa] == (groups@[oa]@, names@[oa]@));
            assert(ks[ob] == (groups@[ob]@, names@[ob]@));
            assert(listing_key(listings@[kept@[oa] as int]) == ks[oa]);
            assert(listing_key(listings@[kept@[ob] as int]) == ks[ob]);
            if oa < ob {
                assert(kept@[oa] < kept@[ob]);
            }
        }
    }
    r
}

/// The line over the inspector while several entities are selected.
pub fn multi_selection_header(count: usize) -> (r: Option<String>)
    ensures
        match r {
            Some(h) => count > 1 && h@ == decimal(count as nat) + " entities selected — edits apply to all"@,
            None => count <= 1,
        },
{
    if count <= 1 {
        return None;
    }
    let mut v: Vec<char> = Vec::new();
    push_decimal(&mut v, count as u64);
    let mut tail = chars_of(" entities selected — edits apply to all");
    v.append(&mut tail);
    Some(string_of(&v))
}

// ---------------------------------------------------------------------------
// The component picker
// ---------------------------------------------------------------------------

/// What a click on the inspector's add-component button does.
#[derive(Debug, Clone, Copy, PartialEq, Eq, Structural)]
pub enum PickerClick {
    /// The click was on something else, or there is nothing to add to.
    Ignore,
    /// The picker is open: the click closes it.
    Close(u64),
    /// The picker opens on the selected entity.
    Open,
}

/// What a click does: it toggles the picker, which only opens on a selected
/// entity the inspector can read.
pub fn picker_click(on_add_button: bool, open_picker: Option<u64>, target_ready: bool) -> (r: PickerClick)
    ensures
        r == (if !on_add_button {
            PickerClick::Ignore
        } else if open_picker is Some {
            PickerClick::Close(open_picker.unwrap())
        } else if target_ready {
            PickerClick::Open
        } else {
            PickerClick::Ignore
        }),
{
    if !on_add_button {
        return PickerClick::Ignore;
    }
    if let Some(p) = open_picker {
        return PickerClick::Close(p);
    }
    if target_ready {
        PickerClick::Open
    } else {
        PickerClick::Ignore
    }
}

/// A registered type, as the picker weighs it.
pub struct ComponentCandidate {
    /// The short name the picker lists it by.
    pub short_name: String,
    /// Its full type path.
    pub type_path: String,
    /// Whether it can be reflected as a component.
    pub reflects_component: bool,
    /// Whether it can be made from a default.
    pub reflects_default: bool,
    /// Whether the selected entity already has it.
    pub on_entity: bool,
    /// Whether the world knows it as a component.
    pub known_to_world: bool,
}

/// Whether the picker offers a type: a reflected component with a default,
/// not already on the entity, not one of the editor's own (`bevy_scene_editor...`), and
/// known to the world.
pub open spec fn offered(c: ComponentCandidate) -> bool {
    c.reflects_component && c.reflects_default && !c.on_entity && !starts_with_spec(c.type_path@, "bevy_scene_editor"@)
        && c.known_to_world
}

/// The key the picker sorts by: the short name in lower case.
pub open spec fn picker_key(c: ComponentCandidate) -> Seq<char> {
    lowercase_of(c.short_name@)
}

/// The entries the picker lists, as positions in `candidates`: every offered
/// type once, ordered by lower-cased short name, ties in registry order.
pub fn picker_entries(candidates: &Vec<ComponentCandidate>) -> (r: Vec<usize>)
    ensures
        r@.no_duplicates(),
        forall|k: int| 0 <= k < r@.len() ==> r@[k] < candidates@.len() && offered(#[trigger] candidates@[r@[k] as int]),
        forall|i: usize| i < candidates@.len() && offered(#[trigger] candidates@[i as int]) ==> r@.contains(i),
        forall|a: int, b: int|
            0 <= a < b < r@.len() ==> ({
                let ka = picker_key(candidates@[#[trigger] r@[a] as int]);
                let kb = picker_key(candidates@[#[trigger] r@[b] as int]);
                lex_le(ka, kb) && (ka != kb || r@[a] < r@[b])
            }),
{
    let editor = chars_of("bevy_scene_editor");
    let mut kept: Vec<usize> = Vec::new();
    let mut keys: Vec<Vec<char>> = Vec::new();
    let mut i: usize = 0;
    while i < candidates.len()
        invariant
            i <= candidates.len(),
            editor@ == "bevy_scene_editor"@,
            keys@.len() == kept@.len(),
            forall|a: int, b: int| 0 <= a < b < kept@.len() ==> kept@[a] < kept@[b],
            forall|k: int| 0 <= k < kept@.len() ==> #[trigger] kept@[k] < i,
            forall|k: int| 0 <= k < kept@.len() ==> offered(#[trigger] candidates@[kept@[k] as int]),
            forall|k: int| 0 <= k < kept@.len() ==> (#[trigger] keys@[k])@ == picker_key(candidates@[kept@[k] as int]),
            forall|j: usize| j < i && offered(#[trigger] candidates@[j as int]) ==> kept@.contains(j),
        decreases candidates.len() - i,
    {
        let c = &candidates[i];
        let path = chars_of(c.type_path.as_str());
        if c.reflects_component && c.reflects_default && !c.on_entity && !starts_with_chars(&path, &editor)
            && c.known_to_world {
            let lower = to_lowercase(c.short_name.as_str());
            assert(offered(candidates@[i as int]));
            let ghost before = kept@;
            let ghost before_keys = keys@;
            kept.push(i);
            keys.push(chars_of(lower.as_str()));
            proof {
                assert(kept@[before.len() as int] == i);
                assert forall|a: int, b: int| 0 <= a < b < kept@.len() implies kept@[a] < kept@[b] by {
                    if b == before.len() {
                        assert(kept@[a] == before[a]);
                    } else {
                        assert(kept@[a] == before[a] && kept@[b] == before[b]);
                    }
                }
                assert forall|k: int| 0 <= k < kept@.len() implies #[trigger] kept@[k] < i + 1 by {
                    if k < before.len() {
                        assert(kept@[k] == before[k]);
                    }
                }
                assert forall|k: int| 0 <= k < kept@.len() implies offered(
                    #[trigger] candidates@[kept@[k] as int],
                ) by {
                    if k < before.len() {
                        assert(kept@[k] == before[k]);
                    }
                }
                assert forall|k: int| 0 <= k < kept@.len() implies (#[trigger] keys@[k])@ == picker_key(
                    candidates@[kept@[k] as int],
                ) by {
                    if k < before.len() {
                        assert(kept@[k] == before[k]);
                        assert(keys@[k] == before_keys[k]);
                    }
                }
                assert forall|j: usize| j < i + 1 && offered(#[trigger] candidates@[j as int]) implies kept@.contains(j) by {
                    if j < i {
                        let k = choose|k: int| 0 <= k < before.len() && before[k] == j;
                        assert(kept@[k] == j);
                    }
                }
            }
        }
        i += 1;
    }
    let order = stable_order(&keys);
    let ghost ks = keys@.map_values(|k: Vec<char>| k@);
    let mut r: Vec<usize> = Vec::new();
    let mut j: usize = 0;
    while j < order.len()
        invariant
            j <= order.len(),
            is_permutation_of_range(order@, keys@.len()),
            keys@.len() == kept@.len(),
            ks == keys@.map_values(|k: Vec<char>| k@),
            forall|a: int, b: int| 0 <= a < b < kept@.len() ==> kept@[a] < kept@[b],
            forall|k: int| 0 <= k < kept@.len() ==> #[trigger] kept@[k] < candidates@.len(),
            forall|k: int| 0 <= k < kept@.len() ==> offered(#[trigger] candidates@[kept@[k] as int]),
            forall|k: int| 0 <= k < kept@.len() ==> (#[trigger] keys@[k])@ == picker_key(candidates@[kept@[k] as int]),
            forall|c: usize| c < candidates@.len() && offered(#[trigger] candidates@[c as int]) ==> kept@.contains(c),
            r@.len() == j,
            forall|k: int| 0 <= k < j ==> r@[k] == kept@[order@[k] as int],
        decreases order.len() - j,
    {
        r.push(kept[order[j]]);
        j += 1;
    }
    proof {
        assert forall|k: int| 0 <= k < r@.len() implies r@[k] < candidates@.len() && offered(
            #[trigger] candidates@[r@[k] as int],
        ) by {
            assert(order@[k] < kept@.len());
            assert(kept@[order@[k] as int] < candidates@.len());
        }
        assert forall|x: int, y: int| 0 <= x < r@.len() && 0 <= y < r@.len() && x != y implies r@[x] != r@[y] by {
            let ox = order@[x] as int;
            let oy = order@[y] as int;
            assert(ox != oy);
            if ox < oy {
                assert(kept@[ox] < kept@[oy]);
            } else {
                assert(kept@[oy] < kept@[ox]);
            }
        }
        assert forall|c: usize| c < candidates@.len() && offered(#[trigger] candidates@[c as int]) implies r@.contains(c) by {
            let k = choose|k: int| 0 <= k < kept@.len() && kept@[k] == c;
            let ku = k as usize;
            assert(order@.contains(ku));
            let p = choose|p: int| 0 <= p < order@.len() && order@[p] == ku;
            assert(r@[p] == c);
        }
        assert forall|a: int, b: int| 0 <= a < b < r@.len() implies ({
            let ka = picker_key(candidates@[#[trigger] r@[a] as int]);
            let kb = picker_key(candidates@[#[trigger] r@[b] as int]);
            lex_le(ka, kb) && (ka != kb || r@[a] < r@[b])
        }) by {
            let oa = order@[a] as int;
            let ob = order@[b] as int;
            assert(key_before(ks, oa, ob));
            assert(ks[oa] == keys@[oa]@);
            assert(ks[ob] == keys@[ob]@);
            if oa < ob {
                assert(kept@[oa] < kept@[ob]);
            }
        }
    }
    r
}

/// Whether the picker shows a component while a search is typed: always
/// when the search, trimmed, is empty; else when the lower-cased short name
/// holds the lower-cased search.
pub open spec fn picker_shows(search: Seq<char>, short_name: Seq<char>) -> bool {
    let filter = lowercase_of(trim_spec(search));
    filter.len() == 0 || contains_spec(lowercase_of(short_name), filter)
}

/// Whether the picker shows the component listed as `short_name` while
/// `search` is typed.
pub fn filter_component_picker(search: &str, short_name: &str) -> (r: bool)
    ensures
        r == picker_shows(search@, short_name@),
{
    let trimmed = trim(search);
    let filter = to_lowercase(trimmed.as_str());
    if chars_of(filter.as_str()).len() == 0 {
        return true;
    }
    let name = to_lowercase(short_name);
    str_contains(name.as_str(), filter.as_str())
}

/// Whether the inspector leaves a type unopened: asset handles and ids, and
/// borrowed-or-owned text, by the type's path.
pub open spec fn opaque_path(type_path: Seq<char>) -> bool {
    starts_with_spec(type_path, "bevy_asset::handle::Handle"@) || starts_with_spec(type_path, "bevy_asset::id::AssetId"@)
        || contains_spec(type_path, "Cow<"@)
}

/// Whether a type is opaque and is not recursed into by the inspector, from
/// its type path; a value that represents no type is not opaque.
pub fn is_opaque_type(type_path: Option<&str>) -> (r: bool)
    ensures
        r == (type_path matches Some(p) && opaque_path(p@)),
{
    let p = match type_path {
        Some(p) => p,
        None => return false,
    };
    let v = chars_of(p);
    let handle = chars_of("bevy_asset::handle::Handle");
    let id = chars_of("bevy_asset::id::AssetId");
    starts_with_chars(&v, &handle) || starts_with_chars(&v, &id) || str_contains(p, "Cow<")
}

// ---------------------------------------------------------------------------
// Rows of custom properties
// ---------------------------------------------------------------------------

/// What a custom property holds.
#[derive(Debug, Clone, Copy, PartialEq, Eq, Structural)]
pub enum PropertyKind {
    Bool,
    Int,
    Float,
    /// A string.
    Text,
    Vec2,
    Vec3,
    Color,
}

/// The editor a custom property's row holds after its name.
#[derive(Debug, Clone, Copy, PartialEq, Eq, Structural)]
pub enum PropertyRow {
    Checkbox,
    /// One numeric field.
    NumberInput,
    /// A text field that fills the rest of the row.
    TextInput,
    /// A numeric field per axis, labelled `X`, `Y` and (for three) `Z`; the
    /// count of axes.
    AxisInputs(usize),
    ColorPicker,
}

/// The editor for a property of `kind`: a checkbox for a switch, a numeric
/// field for an integer or a float, a text field for a string, one field per
/// axis for a vector, and a colour picker for a colour.
pub open spec fn property_row_spec(kind: PropertyKind) -> PropertyRow {
    match kind {
        PropertyKind::Bool => PropertyRow::Checkbox,
        PropertyKind::Int | PropertyKind::Float => PropertyRow::NumberInput,
        PropertyKind::Text => PropertyRow::TextInput,
        PropertyKind::Vec2 => PropertyRow::AxisInputs(2),
        PropertyKind::Vec3 => PropertyRow::AxisInputs(3),
        PropertyKind::Color => PropertyRow::ColorPicker,
    }
}

/// The editor for a property of `kind`; see `property_row_spec`.
pub fn property_row(kind: PropertyKind) -> (r: PropertyRow)
    ensures
        r == property_row_spec(kind),
{
    match kind {
        PropertyKind::Bool => PropertyRow::Checkbox,
        PropertyKind::Int => PropertyRow::NumberInput,
        PropertyKind::Float => PropertyRow::NumberInput,
        PropertyKind::Text => PropertyRow::TextInput,
        PropertyKind::Vec2 => PropertyRow::AxisInputs(2),
        PropertyKind::Vec3 => PropertyRow::AxisInputs(3),
        PropertyKind::Color => PropertyRow::ColorPicker,
    }
}

// ---------------------------------------------------------------------------
// The add-property row
// ---------------------------------------------------------------------------

/// The name a new custom property is given: what was typed, trimmed, and no
/// property at all when that leaves nothing.
pub fn new_property_name(typed: &str) -> (r: Option<String>)
    ensures
        match r {
            Some(n) => n@ == trim_spec(typed@) && n@.len() > 0,
            None => trim_spec(typed@).len() == 0,
        },
{
    let t = trim(typed);
    if chars_of(t.as_str()).len() == 0 {
        None
    } else {
        Some(t)
    }
}

/// The property type the selector's index names among `count` types: the
/// index, held to the last type.
pub fn property_type_index(index: usize, count: usize) -> (r: usize)
    ensures
        r == (if count == 0 {
            0
        } else if index < count {
            index as int
        } else {
            count - 1
        }),
{
    let last = if count == 0 {
        0
    } else {
        count - 1
    };
    if index < last {
        index
    } else {
        last
    }
}

// ---------------------------------------------------------------------------
// The brush face panel
// ---------------------------------------------------------------------------

/// What the face panel last showed: the brush, its selected faces, and a sum
/// of the hashes of those faces' data.
pub struct FacePanelState {
    pub entity: Option<u64>,
    pub faces: Vec<usize>,
    pub data_hash: u64,
}

/// What the face panel does on a frame.
#[derive(Debug, Clone, Copy, PartialEq, Eq, Structural)]
pub enum FacePanelStep {
    /// Leave what is shown.
    Keep,
    /// Take down what is shown.
    Clear,
    /// Build the panel anew for the selected faces.
    Rebuild,
}

/// The hashes of the selected faces that the brush has, added with
/// wrapping, over the first `n` selected faces.
pub open spec fn combined_hash(hashes: Seq<u64>, faces: Seq<usize>, n: int) -> u64
    decreases n,
{
    if n <= 0 {
        0
    } else {
        let prev = combined_hash(hashes, faces, n - 1);
        let f = faces[n - 1] as int;
        if f < hashes.len() {
            vstd::wrapping::u64_specs::wrapping_add(prev, hashes[f])
        } else {
            prev
        }
    }
}

impl FacePanelState {
    /// A panel that shows nothing.
    pub fn new() -> (r: Self)
        ensures
            r.entity is None,
            r.faces@.len() == 0,
            r.data_hash == 0,
    {
        FacePanelState { entity: None, faces: Vec::new(), data_hash: 0 }
    }

    /// One frame of the face panel: it shows while faces of a brush are
    /// picked in face mode, and is rebuilt when the brush, the picked faces,
    /// or the data of those faces (`face_hashes`, one per face of the brush)
    /// changed since it was built; `brush_found` says whether the brush
    /// could be read.
    pub fn step(
        &mut self,
        face_mode: bool,
        entity: Option<u64>,
        faces: &Vec<usize>,
        brush_found: bool,
        face_hashes: &Vec<u64>,
    ) -> (r: FacePanelStep)
        ensures
            ({
                let shown = face_mode && faces@.len() > 0 && entity is Some;
                let h = combined_hash(face_hashes@, faces@, faces@.len() as int);
                if !shown {
                    if old(self).entity is Some {
                        &&& r == FacePanelStep::Clear
                        &&& final(self).entity is None
                        &&& final(self).faces@.len() == 0
                        &&& final(self).data_hash == 0
                    } else {
                        r == FacePanelStep::Keep && *final(self) == *old(self)
                    }
                } else if !brush_found || (old(self).entity == entity && old(self).faces@ == faces@
                    && old(self).data_hash == h) {
                    r == FacePanelStep::Keep && *final(self) == *old(self)
                } else {
                    &&& r == FacePanelStep::Rebuild
                    &&& final(self).entity == entity
                    &&& final(self).faces@ == faces@
                    &&& final(self).data_hash == h
                }
            }),
    {
        let shown = face_mode && faces.len() > 0 && entity.is_some();
        if !shown {
            if self.entity.is_some() {
                *self = FacePanelState::new();
                return FacePanelStep::Clear;
            }
            return FacePanelStep::Keep;
        }
        if !brush_found {
            return FacePanelStep::Keep;
        }
        let mut h: u64 = 0;
        let mut i: usize = 0;
        while i < faces.len()
            invariant
                i <= faces.len(),
                h == combined_hash(face_hashes@, faces@, i as int),
            decreases faces.len() - i,
        {
            let f = faces[i];
            if f < face_hashes.len() {
                h = h.wrapping_add(face_hashes[f]);
            }
            i += 1;
        }
        let mut same_faces = self.faces.len() == faces.len();
        let mut k: usize = 0;
        while same_faces && k < faces.len()
            invariant
                k <= faces.len(),
                same_faces ==> self.faces@.len() == faces@.len(),
                same_faces ==> forall|j: int| 0 <= j < k ==> self.faces@[j] == faces@[j],
                !same_faces ==> self.faces@ != faces@,
            decreases faces.len() - k,
        {
            if self.faces[k] != faces[k] {
                same_faces = false;
            }
            k += 1;
        }
        if same_faces {
            assert(self.faces@ =~= faces@);
        }
        if self.entity == entity && same_faces && self.data_hash == h {
            return FacePanelStep::Keep;
        }
        self.entity = entity;
        self.faces = faces.clone();
        self.data_hash = h;
        FacePanelStep::Rebuild
    }
}

/// The header of the face panel: how many faces are picked, or which face
/// when only one is.
pub fn face_panel_header(faces: &Vec<usize>) -> (r: String)
    requires
        faces@.len() > 0,
    ensures
        r@ == (if faces@.len() > 1 {
            decimal(faces@.len()) + " faces selected"@
        } else {
            "Face "@ + decimal(faces@[0] as nat)
        }),
{
    let mut v: Vec<char> = Vec::new();
    if faces.len() > 1 {
        push_decimal(&mut v, faces.len() as u64);
        let mut tail = chars_of(" faces selected");
        v.append(&mut tail);
    } else {
        v = chars_of("Face ");
        push_decimal(&mut v, faces[0] as u64);
    }
    string_of(&v)
}

/// The texture line of the face panel: the face's texture, or `No Texture`.
pub fn texture_label(path: Option<&str>) -> (r: String)
    ensures
        r@ == (match path {
            Some(p) => p@,
            None => "No Texture"@,
        }),
{
    match path {
        Some(p) => p.to_owned(),
        None => "No Texture".to_owned(),
    }
}

} // verus!
