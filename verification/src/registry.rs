//! The component registries.
//!
//! Two registries exist and are intentionally different in shape: the
//! capture registries list component *directories* (a critical six-entry
//! subset for snapshots and a broader eleven-entry set for containers),
//! while the editor registry maps a component to the single config *file*
//! the editor works on.

use vstd::prelude::*;
use crate::EngineError;
use crate::model::distinct_seqs;

verus! {

/// The critical component subset captured by snapshots.
pub open spec fn critical_components_spec() -> Seq<Seq<char>> {
    seq!["waybar"@, "polybar"@, "eww"@, "kitty"@, "alacritty"@, "picom"@]
}

/// The broader component set captured by containers.
pub open spec fn container_components_spec() -> Seq<Seq<char>> {
    seq![
        "waybar"@,
        "polybar"@,
        "eww"@,
        "conky"@,
        "kitty"@,
        "alacritty"@,
        "picom"@,
        "dunst"@,
        "rofi"@,
        "gtk-3.0"@,
        "gtk-4.0"@,
    ]
}

pub fn critical_components() -> (r: Vec<String>)
    ensures
        r.deep_view() == critical_components_spec(),
{
    let mut v: Vec<String> = Vec::new();
    v.push(String::from_str("waybar"));
    v.push(String::from_str("polybar"));
    v.push(String::from_str("eww"));
    v.push(String::from_str("kitty"));
    v.push(String::from_str("alacritty"));
    v.push(String::from_str("picom"));
    proof {
        assert(v.deep_view() =~= critical_components_spec());
    }
    v
}

/// The container capture set, as strings.
pub fn get_snapshot_components() -> (r: Vec<String>)
    ensures
        r.deep_view() == container_components_spec(),
{
    let mut v: Vec<String> = Vec::new();
    v.push(String::from_str("waybar"));
    v.push(String::from_str("polybar"));
    v.push(String::from_str("eww"));
    v.push(String::from_str("conky"));
    v.push(String::from_str("kitty"));
    v.push(String::from_str("alacritty"));
    v.push(String::from_str("picom"));
    v.push(String::from_str("dunst"));
    v.push(String::from_str("rofi"));
    v.push(String::from_str("gtk-3.0"));
    v.push(String::from_str("gtk-4.0"));
    proof {
        assert(v.deep_view() =~= container_components_spec());
    }
    v
}

/// The capture component names are pairwise distinct.
pub proof fn lemma_components_distinct()
    ensures
        distinct_seqs(critical_components_spec()),
        distinct_seqs(container_components_spec()),
{
    reveal_strlit("waybar");
    reveal_strlit("polybar");
    reveal_strlit("eww");
    reveal_strlit("conky");
    reveal_strlit("kitty");
    reveal_strlit("alacritty");
    reveal_strlit("picom");
    reveal_strlit("dunst");
    reveal_strlit("rofi");
    reveal_strlit("gtk-3.0");
    reveal_strlit("gtk-4.0");
    assert("waybar"@.len() == 6);
    assert("polybar"@.len() == 7);
    assert("eww"@.len() == 3);
    assert("conky"@.len() == 5);
    assert("kitty"@.len() == 5);
    assert("alacritty"@.len() == 9);
    assert("picom"@.len() == 5);
    assert("dunst"@.len() == 5);
    assert("rofi"@.len() == 4);
    assert("gtk-3.0"@.len() == 7);
    assert("gtk-4.0"@.len() == 7);
    assert("conky"@[0] == 'c');
    assert("kitty"@[0] == 'k');
    assert("picom"@[0] == 'p');
    assert("dunst"@[0] == 'd');
    assert("polybar"@[0] == 'p');
    assert("gtk-3.0"@[0] == 'g');
    assert("gtk-4.0"@[0] == 'g');
    assert("gtk-3.0"@[4] == '3');
    assert("gtk-4.0"@[4] == '4');
    assert(distinct_seqs(critical_components_spec()));
    assert(distinct_seqs(container_components_spec()));
}

/// No capture component name equals another with a suffix of seven or
/// more characters appended: the reserved backup names can collide with
/// no component.
pub proof fn lemma_components_suffix_free(suf: Seq<char>)
    requires
        suf.len() >= 7,
    ensures
        forall|x: Seq<char>, y: Seq<char>|
            #![trigger container_components_spec().contains(x), container_components_spec().contains(y)]
            container_components_spec().contains(x) && container_components_spec().contains(y)
                ==> x + suf != y,
        forall|x: Seq<char>, y: Seq<char>|
            #![trigger critical_components_spec().contains(x), critical_components_spec().contains(y)]
            critical_components_spec().contains(x) && critical_components_spec().contains(y)
                ==> x + suf != y,
{
    reveal_strlit("waybar");
    reveal_strlit("polybar");
    reveal_strlit("eww");
    reveal_strlit("conky");
    reveal_strlit("kitty");
    reveal_strlit("alacritty");
    reveal_strlit("picom");
    reveal_strlit("dunst");
    reveal_strlit("rofi");
    reveal_strlit("gtk-3.0");
    reveal_strlit("gtk-4.0");
    assert forall|x: Seq<char>, y: Seq<char>|
        container_components_spec().contains(x) && container_components_spec().contains(
        y,
    ) implies x + suf != y by {
        let i = choose|i: int|
            0 <= i < container_components_spec().len() && container_components_spec()[i] == x;
        let j = choose|j: int|
            0 <= j < container_components_spec().len() && container_components_spec()[j] == y;
        assert(x.len() >= 3);
        assert(y.len() <= 9);
        assert((x + suf).len() >= 10);
    }
    assert forall|x: Seq<char>, y: Seq<char>|
        critical_components_spec().contains(x) && critical_components_spec().contains(
        y,
    ) implies x + suf != y by {
        let i = choose|i: int|
            0 <= i < critical_components_spec().len() && critical_components_spec()[i] == x;
        let j = choose|j: int|
            0 <= j < critical_components_spec().len() && critical_components_spec()[j] == y;
        assert(x.len() >= 3);
        assert(y.len() <= 9);
        assert((x + suf).len() >= 10);
    }
}

/// The editor registry: the config file (directory name, file name) of a
/// component, for the nine components the editor supports.
pub open spec fn editor_entry(c: Seq<char>) -> Option<(Seq<char>, Seq<char>)> {
    if c == "waybar"@ {
        Some(("waybar"@, "config"@))
    } else if c == "polybar"@ {
        Some(("polybar"@, "config.ini"@))
    } else if c == "eww"@ {
        Some(("eww"@, "eww.yuck"@))
    } else if c == "conky"@ {
        Some(("conky"@, "conky.conf"@))
    } else if c == "kitty"@ {
        Some(("kitty"@, "kitty.conf"@))
    } else if c == "alacritty"@ {
        Some(("alacritty"@, "alacritty.yml"@))
    } else if c == "picom"@ {
        Some(("picom"@, "picom.conf"@))
    } else if c == "dunst"@ {
        Some(("dunst"@, "dunstrc"@))
    } else if c == "rofi"@ {
        Some(("rofi"@, "config.rasi"@))
    } else {
        None
    }
}

/// Resolve a component to its editor config file, failing with
/// `UnknownComponent` outside the editor registry.
pub fn resolve_editor_entry(component: &String) -> (r: Result<(String, String), EngineError>)
    ensures
        match r {
            Ok(p) => editor_entry(component@) == Some((p.0@, p.1@)),
            Err(e) => e matches EngineError::UnknownComponent && editor_entry(component@)
                is None,
        },
{
    if *component == String::from_str("waybar") {
        Ok((String::from_str("waybar"), String::from_str("config")))
    } else if *component == String::from_str("polybar") {
        Ok((String::from_str("polybar"), String::from_str("config.ini")))
    } else if *component == String::from_str("eww") {
        Ok((String::from_str("eww"), String::from_str("eww.yuck")))
    } else if *component == String::from_str("conky") {
        Ok((String::from_str("conky"), String::from_str("conky.conf")))
    } else if *component == String::from_str("kitty") {
        Ok((String::from_str("kitty"), String::from_str("kitty.conf")))
    } else if *component == String::from_str("alacritty") {
        Ok((String::from_str("alacritty"), String::from_str("alacritty.yml")))
    } else if *component == String::from_str("picom") {
        Ok((String::from_str("picom"), String::from_str("picom.conf")))
    } else if *component == String::from_str("dunst") {
        Ok((String::from_str("dunst"), String::from_str("dunstrc")))
    } else if *component == String::from_str("rofi") {
        Ok((String::from_str("rofi"), String::from_str("config.rasi")))
    } else {
        Err(EngineError::UnknownComponent)
    }
}

} // verus!
