//! The snapshot manager: named, timestamped captures of the critical
//! component subset, restorable as a unit.
//!
//! A snapshot's lifecycle is absent, created, restored any number of
//! times, deleted; a duplicate create fails rather than merging.

use vstd::prelude::*;
use crate::EngineError;
use crate::model::DirSet;
use crate::registry::{critical_components, critical_components_spec};
use crate::store::{capture, capture_post, delete, restore, restore_effect, CaptureStore};
use crate::text::{plain, valid_name};

verus! {

/// A snapshot's metadata record.
pub struct Snapshot {
    pub name: String,
    pub created: String,
    pub description: String,
    pub files: Vec<String>,
}

/// The reserved suffix a live directory moves aside under before a
/// snapshot restore overwrites it.
pub open spec fn snapshot_backup_suffix() -> Seq<char> {
    ".pre-restore-backup"@
}

/// Capture the critical components present in `live` into a new snapshot
/// named `name`, stamped `created` (an unserializable stamp is recorded
/// as empty text).  Fails with `InvalidName` on a name unfit for a
/// directory, and with `AlreadyExists` when the name is taken; either
/// failure leaves the store as it was.
pub fn create_snapshot_at(
    store: &mut CaptureStore,
    live: &DirSet,
    name: &String,
    created: String,
) -> (r: Result<(), EngineError>)
    requires
        old(store).wf(),
        live.wf(),
    ensures
        final(store).wf(),
        !valid_name(name@) ==> (r matches Err(EngineError::InvalidName)
            && final(store)@ == old(store)@ && final(store).names() == old(store).names()),
        valid_name(name@) && old(store)@.dom().contains(name@) ==> (r matches Err(
            EngineError::AlreadyExists,
        ) && final(store)@ == old(store)@ && final(store).names() == old(store).names()),
        valid_name(name@) && !old(store)@.dom().contains(name@) ==> (r matches Ok(_)
            && capture_post(
            *old(store),
            *final(store),
            *live,
            name@,
            critical_components_spec(),
            crate::store::recorded_stamp(created@),
        )),
{
    let comps = critical_components();
    capture(store, live, name, &comps, created)
}

/// Capture the critical components under `name`, stamped with the clock's
/// current time.  The stamp is some plain text; everything else is as for
/// [`create_snapshot_at`].
pub fn create_snapshot(store: &mut CaptureStore, live: &DirSet, name: &String) -> (r: Result<
    (),
    EngineError,
>)
    requires
        old(store).wf(),
        live.wf(),
    ensures
        final(store).wf(),
        !valid_name(name@) ==> (r matches Err(EngineError::InvalidName)
            && final(store)@ == old(store)@ && final(store).names() == old(store).names()),
        valid_name(name@) && old(store)@.dom().contains(name@) ==> (r matches Err(
            EngineError::AlreadyExists,
        ) && final(store)@ == old(store)@ && final(store).names() == old(store).names()),
        valid_name(name@) && !old(store)@.dom().contains(name@) ==> (r matches Ok(_)
            && exists|t: Seq<char>|
            plain(t) && capture_post(
                *old(store),
                *final(store),
                *live,
                name@,
                critical_components_spec(),
                t,
            )),
{
    let now = crate::clock::now_rfc3339();
    let ghost t = crate::store::recorded_stamp(now@);
    let r = create_snapshot_at(store, live, name, now);
    proof {
        if valid_name(name@) && !old(store)@.dom().contains(name@) {
            assert(plain(t));
        }
    }
    r
}

/// The snapshot names, in creation order.  An empty store yields an empty
/// listing, not an error.
pub fn list_snapshots(store: &CaptureStore) -> (r: Vec<String>)
    ensures
        r.deep_view() == store.names(),
{
    store.list_names()
}

/// Restore the snapshot named `name` over `live`: every recorded
/// component with a captured copy is copied back, the previous live
/// directory first moving aside under the reserved suffix.
pub fn restore_snapshot(store: &CaptureStore, live: &mut DirSet, name: &String) -> (r: Result<
    (),
    EngineError,
>)
    requires
        store.wf(),
        old(live).wf(),
    ensures
        final(live).wf(),
        !store@.dom().contains(name@) ==> (r matches Err(EngineError::NotFound) && final(live)@
            == old(live)@),
        store@.dom().contains(name@) ==> (r matches Ok(_) && final(live)@ == restore_effect(
            old(live)@,
            store@[name@].data@,
            store@[name@].items.deep_view(),
            snapshot_backup_suffix(),
        )),
{
    let suffix = String::from_str(".pre-restore-backup");
    proof {
        reveal_strlit(".pre-restore-backup");
        assert(suffix@.len() > 0);
    }
    restore(store, live, name, &suffix)
}

/// Delete the snapshot named `name`.  Fails with `NotFound` when absent;
/// on success the name leaves the listing and every other snapshot stays.
pub fn delete_snapshot(store: &mut CaptureStore, name: &String) -> (r: Result<(), EngineError>)
    requires
        old(store).wf(),
    ensures
        final(store).wf(),
        !old(store)@.dom().contains(name@) ==> (r matches Err(EngineError::NotFound)
            && final(store)@ == old(store)@ && final(store).names() == old(store).names()),
        old(store)@.dom().contains(name@) ==> (r matches Ok(_)
            && final(store)@ == old(store)@.remove(name@) && exists|idx: int|
            0 <= idx < old(store).names().len() && old(store).names()[idx] == name@
                && final(store).names() == old(store).names().remove(idx)),
{
    delete(store, name)
}

/// The metadata record of the snapshot named `name`, if present.
pub fn snapshot_metadata(store: &CaptureStore, name: &String) -> (r: Option<Snapshot>)
    requires
        store.wf(),
    ensures
        match r {
            Some(s) => store@.dom().contains(name@) && s.name@ == store@[name@].name@
                && s.created@ == store@[name@].created@ && s.description@
                == store@[name@].description@ && s.files.deep_view()
                == store@[name@].items.deep_view(),
            None => !store@.dom().contains(name@),
        },
{
    match store.get(name) {
        Some(rec) => {
            let mut files: Vec<String> = Vec::new();
            let mut i: usize = 0;
            while i < rec.items.len()
                invariant
                    i <= rec.items@.len(),
                    files.deep_view() =~= rec.items.deep_view().take(i as int),
                decreases rec.items@.len() - i,
            {
                let ghost dv0 = files.deep_view();
                files.push(rec.items[i].clone());
                proof {
                    assert(rec.items.deep_view()[i as int] == rec.items@[i as int]@);
                    assert(files.deep_view() =~= dv0.push(rec.items@[i as int]@));
                    assert(files.deep_view() =~= rec.items.deep_view().take(i + 1));
                }
                i = i + 1;
            }
            proof {
                assert(files.deep_view() =~= rec.items.deep_view());
            }
            Some(
                Snapshot {
                    name: rec.name.clone(),
                    created: rec.created.clone(),
                    description: rec.description.clone(),
                    files,
                },
            )
        },
        None => None,
    }
}


/// Round trip at the snapshot level: after a snapshot captures the
/// critical components, restoring it over any later live tree puts back,
/// at every component present at capture time, content identical to the
/// capture-time content, and backs the overwritten live directory up
/// under the reserved suffix.
pub proof fn lemma_snapshot_round_trip(
    s0: CaptureStore,
    s1: CaptureStore,
    live0: DirSet,
    live1: Map<Seq<char>, Map<Seq<char>, Seq<char>>>,
    name: Seq<char>,
    created: Seq<char>,
    c: Seq<char>,
)
    requires
        capture_post(s0, s1, live0, name, critical_components_spec(), created),
        critical_components_spec().contains(c),
        live0@.dom().contains(c),
    ensures
        restore_effect(
            live1,
            s1@[name].data@,
            s1@[name].items.deep_view(),
            snapshot_backup_suffix(),
        ).dom().contains(c),
        restore_effect(
            live1,
            s1@[name].data@,
            s1@[name].items.deep_view(),
            snapshot_backup_suffix(),
        )[c] == live0@[c],
        live1.dom().contains(c) ==> restore_effect(
            live1,
            s1@[name].data@,
            s1@[name].items.deep_view(),
            snapshot_backup_suffix(),
        ).dom().contains(c + snapshot_backup_suffix()) && restore_effect(
            live1,
            s1@[name].data@,
            s1@[name].items.deep_view(),
            snapshot_backup_suffix(),
        )[c + snapshot_backup_suffix()] == live1[c],
{
    reveal_strlit(".pre-restore-backup");
    crate::registry::lemma_components_distinct();
    crate::registry::lemma_components_suffix_free(snapshot_backup_suffix());
    crate::store::lemma_capture_restore_round_trip(
        s0,
        s1,
        live0,
        live1,
        name,
        critical_components_spec(),
        created,
        snapshot_backup_suffix(),
        c,
    );
}

} // verus!

