//! On-disk path builders, rooted at an injected home directory.
//!
//! The engine itself works on the in-memory model; these builders say
//! where each modelled object lives on disk, so that the surrounding
//! process can load and persist the model.  The home directory is a
//! parameter throughout; its resolution happens outside the engine.

use vstd::prelude::*;
use crate::EngineError;
use crate::registry::editor_entry;

verus! {

/// The engine's own state directory.
pub fn get_config_dir(home: &String) -> (r: String)
    ensures
        r@ == home@ + "/.nixdeck"@,
{
    let mut p = home.clone();
    p.append("/.nixdeck");
    p
}

/// The live configuration root the components live under.
pub fn live_config_dir(home: &String) -> (r: String)
    ensures
        r@ == home@ + "/.config"@,
{
    let mut p = home.clone();
    p.append("/.config");
    p
}

pub fn get_snapshots_dir(home: &String) -> (r: String)
    ensures
        r@ == home@ + "/.nixdeck/snapshots"@,
{
    let mut p = home.clone();
    p.append("/.nixdeck/snapshots");
    p
}

pub fn get_snapshot_path(home: &String, name: &String) -> (r: String)
    ensures
        r@ == home@ + "/.nixdeck/snapshots/"@ + name@,
{
    let mut p = home.clone();
    p.append("/.nixdeck/snapshots/");
    p.append(name.as_str());
    p
}

pub fn get_containers_dir(home: &String) -> (r: String)
    ensures
        r@ == home@ + "/.nixdeck/containers"@,
{
    let mut p = home.clone();
    p.append("/.nixdeck/containers");
    p
}

pub fn get_container_path(home: &String, name: &String) -> (r: String)
    ensures
        r@ == home@ + "/.nixdeck/containers/"@ + name@,
{
    let mut p = home.clone();
    p.append("/.nixdeck/containers/");
    p.append(name.as_str());
    p
}

pub fn get_loadouts_dir(home: &String) -> (r: String)
    ensures
        r@ == home@ + "/.nixdeck/loadouts"@,
{
    let mut p = home.clone();
    p.append("/.nixdeck/loadouts");
    p
}

pub fn get_loadout_path(home: &String, name: &String) -> (r: String)
    ensures
        r@ == home@ + "/.nixdeck/loadouts/"@ + name@ + ".nd2133-loadout"@,
{
    let mut p = home.clone();
    p.append("/.nixdeck/loadouts/");
    p.append(name.as_str());
    p.append(".nd2133-loadout");
    p
}

pub fn get_themes_dir(home: &String) -> (r: String)
    ensures
        r@ == home@ + "/.nixdeck/themes"@,
{
    let mut p = home.clone();
    p.append("/.nixdeck/themes");
    p
}

pub fn get_theme_path(home: &String, name: &String) -> (r: String)
    ensures
        r@ == home@ + "/.nixdeck/themes/"@ + name@,
{
    let mut p = home.clone();
    p.append("/.nixdeck/themes/");
    p.append(name.as_str());
    p
}

/// The on-disk path of the config file the editor works on for a
/// component, failing with `UnknownComponent` outside the editor registry.
pub fn get_component_config_path(home: &String, component: &String) -> (r: Result<
    String,
    EngineError,
>)
    ensures
        match r {
            Ok(p) => editor_entry(component@) matches Some(e) && p@ == home@ + "/.config/"@ + e.0
                + "/"@ + e.1,
            Err(e) => e matches EngineError::UnknownComponent && editor_entry(component@)
                is None,
        },
{
    match crate::registry::resolve_editor_entry(component) {
        Ok((d, f)) => {
            let mut p = home.clone();
            p.append("/.config/");
            p.append(d.as_str());
            p.append("/");
            p.append(f.as_str());
            Ok(p)
        },
        Err(e) => Err(EngineError::UnknownComponent),
    }
}

} // verus!
