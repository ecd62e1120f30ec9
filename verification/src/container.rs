//! The container manager: named, timestamped captures of the broader
//! component set, restorable as a unit or exportable to an archive.
//!
//! Load is metadata-driven like snapshot restore: it walks the recorded
//! component list rather than scanning the captured tree, so components
//! that landed without being recorded are ignored.

use vstd::prelude::*;
use crate::EngineError;
use crate::model::DirSet;
use crate::registry::{container_components_spec, get_snapshot_components};
use crate::store::{capture, capture_post, restore, restore_effect, CaptureStore};
use crate::system::CommandResult;
use crate::text::{plain, valid_name};

verus! {

/// A container's metadata record.
pub struct Container {
    pub name: String,
    pub created: String,
    pub description: String,
    pub components: Vec<String>,
}

/// The reserved suffix a live directory moves aside under before a
/// container load overwrites it.
pub open spec fn container_backup_suffix() -> Seq<char> {
    ".nixdeck-backup"@
}

/// Capture the container components present in `live` into a new
/// container named `name`, stamped `created` (an unserializable stamp is
/// recorded as empty text).  Fails with `InvalidName` on a name unfit
/// for a directory, and with `AlreadyExists` when the name is taken;
/// either failure leaves the store as it was.
pub fn create_at(
    store: &mut CaptureStore,
    live: &DirSet,
    name: &String,
    created: String,
) -> (r: Result<(), EngineError>)
    requires
        old(store).wf(),
        live.wf(),
    ensures
        final(store).wf(),
        !valid_name(name@) ==> (r matches Err(EngineError::InvalidName)
            && final(store)@ == old(store)@ && final(store).names() == old(store).names()),
        valid_name(name@) && old(store)@.dom().contains(name@) ==> (r matches Err(
            EngineError::AlreadyExists,
        ) && final(store)@ == old(store)@ && final(store).names() == old(store).names()),
        valid_name(name@) && !old(store)@.dom().contains(name@) ==> (r matches Ok(_)
            && capture_post(
            *old(store),
            *final(store),
            *live,
            name@,
            container_components_spec(),
            crate::store::recorded_stamp(created@),
        )),
{
    let comps = get_snapshot_components();
    capture(store, live, name, &comps, created)
}

/// Capture the container components under `name`, stamped with the
/// clock's current time.  The stamp is some plain text; everything else
/// is as for [`create_at`].
pub fn create(store: &mut CaptureStore, live: &DirSet, name: &String) -> (r: Result<
    (),
    EngineError,
>)
    requires
        old(store).wf(),
        live.wf(),
    ensures
        final(store).wf(),
        !valid_name(name@) ==> (r matches Err(EngineError::InvalidName)
            && final(store)@ == old(store)@ && final(store).names() == old(store).names()),
        valid_name(name@) && old(store)@.dom().contains(name@) ==> (r matches Err(
            EngineError::AlreadyExists,
        ) && final(store)@ == old(store)@ && final(store).names() == old(store).names()),
        valid_name(name@) && !old(store)@.dom().contains(name@) ==> (r matches Ok(_)
            && exists|t: Seq<char>|
            plain(t) && capture_post(
                *old(store),
                *final(store),
                *live,
                name@,
                container_components_spec(),
                t,
            )),
{
    let now = crate::clock::now_rfc3339();
    let ghost t = crate::store::recorded_stamp(now@);
    let r = create_at(store, live, name, now);
    proof {
        if valid_name(name@) && !old(store)@.dom().contains(name@) {
            assert(plain(t));
        }
    }
    r
}

/// Restore the container named `name` over `live`: every recorded
/// component with a captured copy is copied back, the previous live
/// directory first moving aside under the reserved suffix.
pub fn load(store: &CaptureStore, live: &mut DirSet, name: &String) -> (r: Result<
    (),
    EngineError,
>)
    requires
        store.wf(),
        old(live).wf(),
    ensures
        final(live).wf(),
        !store@.dom().contains(name@) ==> (r matches Err(EngineError::NotFound) && final(live)@
            == old(live)@),
        store@.dom().contains(name@) ==> (r matches Ok(_) && final(live)@ == restore_effect(
            old(live)@,
            store@[name@].data@,
            store@[name@].items.deep_view(),
            container_backup_suffix(),
        )),
{
    let suffix = String::from_str(".nixdeck-backup");
    proof {
        reveal_strlit(".nixdeck-backup");
        assert(suffix@.len() > 0);
    }
    restore(store, live, name, &suffix)
}

/// The container names, in creation order.  An empty store yields an
/// empty listing, not an error.
pub fn list(store: &CaptureStore) -> (r: Vec<String>)
    ensures
        r.deep_view() == store.names(),
{
    store.list_names()
}

/// Delete the container named `name`.  Fails with `NotFound` when absent;
/// on success the name leaves the listing and every other container stays.
pub fn delete(store: &mut CaptureStore, name: &String) -> (r: Result<(), EngineError>)
    requires
        old(store).wf(),
    ensures
        final(store).wf(),
        !old(store)@.dom().contains(name@) ==> (r matches Err(EngineError::NotFound)
            && final(store)@ == old(store)@ && final(store).names() == old(store).names()),
        old(store)@.dom().contains(name@) ==> (r matches Ok(_)
            && final(store)@ == old(store)@.remove(name@) && exists|idx: int|
            0 <= idx < old(store).names().len() && old(store).names()[idx] == name@
                && final(store).names() == old(store).names().remove(idx)),
{
    crate::store::delete(store, name)
}

/// The argument list for the archiving tool that exports the container
/// named `name` to a compressed archive at `dest`: the container's
/// directory tree, archived from under the containers root.  Fails with
/// `NotFound` when the container does not exist.
pub fn export(store: &CaptureStore, home: &String, name: &String, dest: &String) -> (r: Result<
    Vec<String>,
    EngineError,
>)
    requires
        store.wf(),
    ensures
        match r {
            Ok(args) => store@.dom().contains(name@) && args.deep_view() =~= seq![
                "-czf"@,
                dest@,
                "-C"@,
                home@ + "/.nixdeck/containers"@,
                name@,
            ],
            Err(e) => e matches EngineError::NotFound && !store@.dom().contains(name@),
        },
{
    if !store.contains(name) {
        return Err(EngineError::NotFound);
    }
    let parent = crate::paths::get_containers_dir(home);
    let mut args: Vec<String> = Vec::new();
    args.push(String::from_str("-czf"));
    args.push(dest.clone());
    args.push(String::from_str("-C"));
    args.push(parent);
    args.push(name.clone());
    Ok(args)
}

/// The engine's reading of an archiving tool's exit: success is success,
/// and a failure surfaces the tool's error output verbatim.
pub fn export_outcome(result: &CommandResult) -> (r: Result<(), EngineError>)
    ensures
        result.success ==> r matches Ok(_),
        !result.success ==> (r matches Err(e) && e matches EngineError::Subprocess(m)
            && m@ == result.stderr@),
{
    if result.success {
        Ok(())
    } else {
        Err(EngineError::Subprocess(result.stderr.clone()))
    }
}

/// The metadata record of the container named `name`, if present.
pub fn container_metadata(store: &CaptureStore, name: &String) -> (r: Option<Container>)
    requires
        store.wf(),
    ensures
        match r {
            Some(c) => store@.dom().contains(name@) && c.name@ == store@[name@].name@
                && c.created@ == store@[name@].created@ && c.description@
                == store@[name@].description@ && c.components.deep_view()
                == store@[name@].items.deep_view(),
            None => !store@.dom().contains(name@),
        },
{
    match store.get(name) {
        Some(rec) => {
            let mut components: Vec<String> = Vec::new();
            let mut i: usize = 0;
            while i < rec.items.len()
                invariant
                    i <= rec.items@.len(),
                    components.deep_view() =~= rec.items.deep_view().take(i as int),
                decreases rec.items@.len() - i,
            {
                let ghost dv0 = components.deep_view();
                components.push(rec.items[i].clone());
                proof {
                    assert(rec.items.deep_view()[i as int] == rec.items@[i as int]@);
                    assert(components.deep_view() =~= dv0.push(rec.items@[i as int]@));
                    assert(components.deep_view() =~= rec.items.deep_view().take(i + 1));
                }
                i = i + 1;
            }
            proof {
                assert(components.deep_view() =~= rec.items.deep_view());
            }
            Some(
                Container {
                    name: rec.name.clone(),
                    created: rec.created.clone(),
                    description: rec.description.clone(),
                    components,
                },
            )
        },
        None => None,
    }
}


/// Round trip at the container level: after a container captures the
/// broader component set, loading it over any later live tree puts back,
/// at every component present at capture time, content identical to the
/// capture-time content, and backs the overwritten live directory up
/// under the reserved suffix.
pub proof fn lemma_container_round_trip(
    s0: CaptureStore,
    s1: CaptureStore,
    live0: DirSet,
    live1: Map<Seq<char>, Map<Seq<char>, Seq<char>>>,
    name: Seq<char>,
    created: Seq<char>,
    c: Seq<char>,
)
    requires
        capture_post(s0, s1, live0, name, container_components_spec(), created),
        container_components_spec().contains(c),
        live0@.dom().contains(c),
    ensures
        restore_effect(
            live1,
            s1@[name].data@,
            s1@[name].items.deep_view(),
            container_backup_suffix(),
        ).dom().contains(c),
        restore_effect(
            live1,
            s1@[name].data@,
            s1@[name].items.deep_view(),
            container_backup_suffix(),
        )[c] == live0@[c],
        live1.dom().contains(c) ==> restore_effect(
            live1,
            s1@[name].data@,
            s1@[name].items.deep_view(),
            container_backup_suffix(),
        ).dom().contains(c + container_backup_suffix()) && restore_effect(
            live1,
            s1@[name].data@,
            s1@[name].items.deep_view(),
            container_backup_suffix(),
        )[c + container_backup_suffix()] == live1[c],
{
    reveal_strlit(".nixdeck-backup");
    crate::registry::lemma_components_distinct();
    crate::registry::lemma_components_suffix_free(container_backup_suffix());
    crate::store::lemma_capture_restore_round_trip(
        s0,
        s1,
        live0,
        live1,
        name,
        container_components_spec(),
        created,
        container_backup_suffix(),
        c,
    );
}

} // verus!

