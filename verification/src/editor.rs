//! The single-component config editor: read, write and preview one
//! component's config file, with an automatic backup before every write.

use vstd::prelude::*;
use crate::EngineError;
use crate::model::DirSet;
use crate::registry::editor_entry;

verus! {

/// The reserved suffix the previous file content is kept under beside the
/// file when a write overwrites it.
pub open spec fn editor_backup_suffix() -> Seq<char> {
    ".nixdeck-backup"@
}

/// What `live` looks like after a successful write of `content` to the
/// config file `(d, f)` of a component: the previous content moves to the
/// backup name beside the file, and the file holds the new content.
pub open spec fn apply_post(
    live0: Map<Seq<char>, Map<Seq<char>, Seq<char>>>,
    live1: Map<Seq<char>, Map<Seq<char>, Seq<char>>>,
    d: Seq<char>,
    f: Seq<char>,
    content: Seq<char>,
) -> bool {
    live1 == live0.insert(
        d,
        live0[d].insert(f + editor_backup_suffix(), live0[d][f]).insert(f, content),
    )
}

/// Read a component's config file.  Fails with `UnknownComponent` outside
/// the editor registry and with `NotFound` when the directory or the file
/// is absent.
pub fn get_config(live: &DirSet, component: &String) -> (r: Result<String, EngineError>)
    requires
        live.wf(),
    ensures
        match r {
            Ok(content) => editor_entry(component@) matches Some(e) && live@.dom().contains(e.0)
                && live@[e.0].dom().contains(e.1) && content@ == live@[e.0][e.1],
            Err(ee) => match ee {
                EngineError::UnknownComponent => editor_entry(component@) is None,
                EngineError::NotFound => editor_entry(component@) matches Some(e) && (
                !live@.dom().contains(e.0) || !live@[e.0].dom().contains(e.1)),
                _ => false,
            },
        },
{
    let (d, f) = match crate::registry::resolve_editor_entry(component) {
        Ok(p) => p,
        Err(_) => {
            return Err(EngineError::UnknownComponent);
        },
    };
    let dir = match live.get(&d) {
        Some(dir) => dir,
        None => {
            return Err(EngineError::NotFound);
        },
    };
    match dir.get_file(&f) {
        Some(content) => Ok(content.clone()),
        None => Err(EngineError::NotFound),
    }
}

/// Write a component's config file, first copying the existing content to
/// the reserved backup name beside it.  Fails with `UnknownComponent`
/// outside the editor registry and with `NotFound` when there is no
/// existing file to back up; failure leaves `live` unchanged.
pub fn apply_config(live: &mut DirSet, component: &String, config: String) -> (r: Result<
    (),
    EngineError,
>)
    requires
        old(live).wf(),
    ensures
        final(live).wf(),
        match r {
            Ok(_) => editor_entry(component@) matches Some(e) && old(live)@.dom().contains(e.0)
                && old(live)@[e.0].dom().contains(e.1) && apply_post(
                old(live)@,
                final(live)@,
                e.0,
                e.1,
                config@,
            ),
            Err(ee) => final(live)@ == old(live)@ && (match ee {
                EngineError::UnknownComponent => editor_entry(component@) is None,
                EngineError::NotFound => editor_entry(component@) matches Some(e) && (!old(
                    live,
                )@.dom().contains(e.0) || !old(live)@[e.0].dom().contains(e.1)),
                _ => false,
            }),
        },
{
    let (d, f) = match crate::registry::resolve_editor_entry(component) {
        Ok(p) => p,
        Err(_) => {
            return Err(EngineError::UnknownComponent);
        },
    };
    let current = {
        let dir = match live.get(&d) {
            Some(dir) => dir,
            None => {
                return Err(EngineError::NotFound);
            },
        };
        match dir.get_file(&f) {
            Some(content) => content.clone(),
            None => {
                return Err(EngineError::NotFound);
            },
        }
    };
    let mut backup = f.clone();
    backup.append(".nixdeck-backup");
    live.set_file_in(&d, backup, current);
    live.set_file_in(&d, f, config);
    proof {
        let e = editor_entry(component@)->Some_0;
        assert(final(live)@ =~= old(live)@.insert(
            e.0,
            old(live)@[e.0].insert(e.1 + editor_backup_suffix(), old(live)@[e.0][e.1]).insert(
                e.1,
                config@,
            ),
        ));
    }
    Ok(())
}

/// A two-section textual comparison of a component's current config and a
/// candidate: the current content, then the candidate, each under a
/// heading.  Fails exactly as [`get_config`] does.
pub fn preview_config(live: &DirSet, component: &String, config: &String) -> (r: Result<
    String,
    EngineError,
>)
    requires
        live.wf(),
    ensures
        match r {
            Ok(text) => editor_entry(component@) matches Some(e) && live@.dom().contains(e.0)
                && live@[e.0].dom().contains(e.1) && text@ == "=== CURRENT ===\n"@
                + live@[e.0][e.1] + "\n\n=== NEW ===\n"@ + config@,
            Err(ee) => match ee {
                EngineError::UnknownComponent => editor_entry(component@) is None,
                EngineError::NotFound => editor_entry(component@) matches Some(e) && (
                !live@.dom().contains(e.0) || !live@[e.0].dom().contains(e.1)),
                _ => false,
            },
        },
{
    let current = match get_config(live, component) {
        Ok(c) => c,
        Err(e) => {
            return Err(e);
        },
    };
    let mut text = String::from_str("=== CURRENT ===\n");
    text.append(current.as_str());
    text.append("\n\n=== NEW ===\n");
    text.append(config.as_str());
    Ok(text)
}

/// Editor round trip: after a successful write of `content`, the
/// component's config file holds exactly `content`, so a read returns it.
pub proof fn lemma_editor_round_trip(
    live0: Map<Seq<char>, Map<Seq<char>, Seq<char>>>,
    live1: Map<Seq<char>, Map<Seq<char>, Seq<char>>>,
    d: Seq<char>,
    f: Seq<char>,
    content: Seq<char>,
)
    requires
        apply_post(live0, live1, d, f, content),
    ensures
        live1.dom().contains(d),
        live1[d].dom().contains(f),
        live1[d][f] == content,
{
}

} // verus!

