//! The capture store and the shared capture / restore / delete core.
//!
//! A [`CaptureRec`] is one named capture: its metadata fields and the
//! captured component directories.  Snapshots and containers are both
//! kept in a [`CaptureStore`]; they differ only in the component set they
//! capture, the reserved backup suffix and the metadata list key.

use vstd::prelude::*;
use crate::EngineError;
use crate::model::{assoc_keys, assoc_map, distinct_seqs, lemma_assoc_map_dom,
    lemma_assoc_map_index, lemma_assoc_map_push, lemma_assoc_map_remove, DirSet};
use crate::text::{is_valid_name, valid_name};

verus! {

/// One named capture: metadata fields plus the captured directories.
pub struct CaptureRec {
    pub name: String,
    pub created: String,
    pub description: String,
    pub items: Vec<String>,
    pub data: DirSet,
}

/// A set of named captures, in creation order.
pub struct CaptureStore {
    recs: Vec<CaptureRec>,
}

impl CaptureStore {
    pub closed spec fn pairs(&self) -> Seq<(Seq<char>, CaptureRec)> {
        self.recs@.map_values(|r: CaptureRec| (r.name@, r))
    }

    /// The capture names, in creation order.
    pub closed spec fn names(&self) -> Seq<Seq<char>> {
        assoc_keys(self.pairs())
    }

    pub closed spec fn wf(&self) -> bool {
        distinct_seqs(self.names()) && (forall|i: int|
            0 <= i < self.recs@.len() ==> (#[trigger] self.recs@[i]).data.wf())
    }

    pub fn new() -> (r: CaptureStore)
        ensures
            r@ == Map::<Seq<char>, CaptureRec>::empty(),
            r.wf(),
            r.names() == Seq::<Seq<char>>::empty(),
    {
        let r = CaptureStore { recs: Vec::new() };
        proof {
            assert(r.pairs() =~= Seq::<(Seq<char>, CaptureRec)>::empty());
            assert(r.names() =~= Seq::<Seq<char>>::empty());
        }
        r
    }

    fn index_of(&self, name: &String) -> (r: Option<usize>)
        ensures
            match r {
                Some(i) => i < self.recs@.len() && self.pairs()[i as int].0 == name@,
                None => !self.names().contains(name@),
            },
    {
        let mut i: usize = 0;
        while i < self.recs.len()
            invariant
                i <= self.recs@.len(),
                forall|j: int| 0 <= j < i ==> self.pairs()[j].0 != name@,
            decreases self.recs@.len() - i,
        {
            proof {
                assert(self.pairs()[i as int] == (self.recs@[i as int].name@,
                self.recs@[i as int]));
            }
            if self.recs[i].name == *name {
                return Some(i);
            }
            i = i + 1;
        }
        proof {
            assert forall|j: int| 0 <= j < self.names().len() implies self.names()[j]
                != name@ by {
                assert(self.pairs()[j].0 != name@);
            }
        }
        None
    }

    pub fn contains(&self, name: &String) -> (r: bool)
        requires
            self.wf(),
        ensures
            r == self@.dom().contains(name@),
    {
        proof {
            lemma_assoc_map_dom(self.pairs());
        }
        match self.index_of(name) {
            Some(i) => {
                proof {
                    assert(self.names()[i as int] == name@);
                    assert(self.names().contains(name@));
                }
                true
            },
            None => false,
        }
    }

    pub fn get(&self, name: &String) -> (r: Option<&CaptureRec>)
        requires
            self.wf(),
        ensures
            match r {
                Some(rc) => self@.dom().contains(name@) && *rc == self@[name@]
                    && rc.data.wf(),
                None => !self@.dom().contains(name@),
            },
    {
        proof {
            lemma_assoc_map_dom(self.pairs());
        }
        match self.index_of(name) {
            Some(i) => {
                proof {
                    lemma_assoc_map_index(self.pairs(), i as int);
                }
                Some(&self.recs[i])
            },
            None => None,
        }
    }

    /// Add a loaded record; refused (leaving the store unchanged) when
    /// the name is already taken.
    pub fn add_rec(&mut self, rec: CaptureRec) -> (r: bool)
        requires
            old(self).wf(),
            rec.data.wf(),
        ensures
            final(self).wf(),
            r == !old(self)@.dom().contains(rec.name@),
            r ==> final(self)@ == old(self)@.insert(rec.name@, rec) && final(self).names()
                == old(self).names().push(rec.name@),
            !r ==> final(self)@ == old(self)@ && final(self).names() == old(self).names(),
    {
        if self.contains(&rec.name) {
            false
        } else {
            self.push_rec(rec);
            true
        }
    }

    fn push_rec(&mut self, rec: CaptureRec)
        requires
            old(self).wf(),
            rec.data.wf(),
            !old(self)@.dom().contains(rec.name@),
        ensures
            final(self).wf(),
            final(self)@ == old(self)@.insert(rec.name@, rec),
            final(self).names() == old(self).names().push(rec.name@),
    {
        proof {
            lemma_assoc_map_dom(self.pairs());
        }
        let ghost p0 = self.pairs();
        let ghost r0 = rec;
        self.recs.push(rec);
        proof {
            assert(self.pairs() =~= p0.push((r0.name@, r0)));
            lemma_assoc_map_push(p0, (r0.name@, r0));
            assert(assoc_keys(self.pairs()) =~= assoc_keys(p0).push(r0.name@));
            assert(distinct_seqs(self.names()));
        }
    }

    fn remove_rec(&mut self, name: &String) -> (r: bool)
        requires
            old(self).wf(),
        ensures
            final(self).wf(),
            r == old(self)@.dom().contains(name@),
            final(self)@ == old(self)@.remove(name@),
            r ==> exists|idx: int|
                0 <= idx < old(self).names().len() && old(self).names()[idx] == name@
                    && final(self).names() == old(self).names().remove(idx),
            !r ==> final(self).names() == old(self).names(),
    {
        proof {
            lemma_assoc_map_dom(self.pairs());
        }
        match self.index_of(name) {
            Some(i) => {
                proof {
                    assert(self.names()[i as int] == name@);
                    assert(self.names().contains(name@));
                    lemma_assoc_map_remove(self.pairs(), i as int);
                }
                let ghost p0 = self.pairs();
                self.recs.remove(i);
                proof {
                    assert(self.pairs() =~= p0.remove(i as int));
                    assert(assoc_keys(self.pairs()) =~= assoc_keys(p0).remove(i as int));
                    assert(final(self)@ =~= old(self)@.remove(name@));
                    assert(final(self).names() == old(self).names().remove(i as int));
                }
                true
            },
            None => {
                proof {
                    assert(!self@.dom().contains(name@));
                    assert(final(self)@ =~= old(self)@.remove(name@));
                }
                false
            },
        }
    }

    /// The capture names as strings, in creation order.
    pub fn list_names(&self) -> (r: Vec<String>)
        ensures
            r.deep_view() == self.names(),
    {
        let mut r: Vec<String> = Vec::new();
        let mut i: usize = 0;
        while i < self.recs.len()
            invariant
                i <= self.recs@.len(),
                r.deep_view() =~= self.names().take(i as int),
            decreases self.recs@.len() - i,
        {
            let ghost dv0 = r.deep_view();
            r.push(self.recs[i].name.clone());
            proof {
                assert(self.pairs()[i as int] == (self.recs@[i as int].name@,
                self.recs@[i as int]));
                assert(r.deep_view() =~= dv0.push(self.recs@[i as int].name@));
                assert(r.deep_view() =~= self.names().take(i + 1));
            }
            i = i + 1;
        }
        proof {
            assert(r.deep_view() =~= self.names());
        }
        r
    }
}

impl View for CaptureStore {
    type V = Map<Seq<char>, CaptureRec>;

    closed spec fn view(&self) -> Map<Seq<char>, CaptureRec> {
        assoc_map(self.pairs())
    }
}

/// The components present in `live`.
pub open spec fn present_in(live: DirSet) -> spec_fn(Seq<char>) -> bool {
    |c: Seq<char>| live@.dom().contains(c)
}

/// What holds of the store after a successful capture of `comps` from
/// `live` under `name`: the new record is appended, nothing else moves,
/// its recorded items are exactly the components present in `live`, and
/// its data holds a content-identical copy of each of them.
pub open spec fn capture_post(
    s0: CaptureStore,
    s1: CaptureStore,
    live: DirSet,
    name: Seq<char>,
    comps: Seq<Seq<char>>,
    created: Seq<char>,
) -> bool {
    &&& s1.names() == s0.names().push(name)
    &&& s1@.dom() == s0@.dom().insert(name)
    &&& forall|k: Seq<char>|
        #[trigger] s0@.dom().contains(k) && k != name ==> s1@.dom().contains(k) && s1@[k]
            == s0@[k]
    &&& s1@.dom().contains(name)
    &&& s1@[name].name@ == name
    &&& s1@[name].created@ == created
    &&& s1@[name].description@ == Seq::<char>::empty()
    &&& s1@[name].items.deep_view() == comps.filter(present_in(live))
    &&& s1@[name].data.wf()
    &&& forall|c: Seq<char>|
        #[trigger] s1@[name].data@.dom().contains(c) <==> (comps.contains(c)
            && live@.dom().contains(c))
    &&& forall|c: Seq<char>|
        #[trigger] s1@[name].data@.dom().contains(c) ==> s1@[name].data@[c] == live@[c]
}

/// The timestamp a capture records: the given text when it can stand in
/// metadata unescaped, and empty text otherwise.
pub open spec fn recorded_stamp(created: Seq<char>) -> Seq<char> {
    if crate::text::plain(created) {
        created
    } else {
        Seq::empty()
    }
}

/// Capture the components of `comps` that are present in `live` into a new
/// record named `name`.  Fails with `InvalidName` on a name unfit for a
/// directory, and with `AlreadyExists` when the name is taken; either
/// failure leaves the store as it was.
pub(crate) fn capture(
    store: &mut CaptureStore,
    live: &DirSet,
    name: &String,
    comps: &Vec<String>,
    created: String,
) -> (r: Result<(), EngineError>)
    requires
        old(store).wf(),
        live.wf(),
    ensures
        final(store).wf(),
        !valid_name(name@) ==> (r matches Err(EngineError::InvalidName)
            && final(store)@ == old(store)@ && final(store).names() == old(store).names()),
        valid_name(name@) && old(store)@.dom().contains(name@) ==> (r matches Err(
            EngineError::AlreadyExists,
        ) && final(store)@ == old(store)@ && final(store).names() == old(store).names()),
        valid_name(name@) && !old(store)@.dom().contains(name@) ==> (r matches Ok(_)
            && capture_post(
            *old(store),
            *final(store),
            *live,
            name@,
            comps.deep_view(),
            recorded_stamp(created@),
        )),
{
    if !is_valid_name(name) {
        return Err(EngineError::InvalidName);
    }
    let created = if crate::text::is_plain(created.as_str()) {
        created
    } else {
        String::new()
    };
    if store.contains(name) {
        return Err(EngineError::AlreadyExists);
    }
    let ghost cview = comps.deep_view();
    let mut items: Vec<String> = Vec::new();
    let mut data = DirSet::new();
    let mut i: usize = 0;
    while i < comps.len()
        invariant
            live.wf(),
            i <= comps@.len(),
            cview == comps.deep_view(),
            cview.len() == comps@.len(),
            items.deep_view() =~= cview.take(i as int).filter(present_in(*live)),
            data.wf(),
            forall|c: Seq<char>|
                #[trigger] data@.dom().contains(c) <==> (cview.take(i as int).contains(c)
                    && live@.dom().contains(c)),
            forall|c: Seq<char>| #[trigger] data@.dom().contains(c) ==> data@[c] == live@[c],
        decreases comps@.len() - i,
    {
        let comp = &comps[i];
        proof {
            assert(cview[i as int] == comp@);
            assert(cview.take(i + 1).drop_last() =~= cview.take(i as int));
            assert(cview.take(i + 1).last() == comp@);
        }
        match live.get(comp) {
            Some(d) => {
                let ghost items0 = items.deep_view();
                items.push(comp.clone());
                data.set(comp.clone(), d.duplicate());
                proof {
                    reveal_with_fuel(Seq::filter, 2);
                    assert(present_in(*live)(comp@));
                    assert(cview.take(i + 1).filter(present_in(*live)) == cview.take(
                        i as int,
                    ).filter(present_in(*live)).push(comp@));
                    assert(items.deep_view() =~= items0.push(comp@));
                    assert forall|c: Seq<char>| #[trigger] data@.dom().contains(c) implies (
                    cview.take(i + 1).contains(c) && live@.dom().contains(c)) by {
                        if c == comp@ {
                            assert(cview.take(i + 1)[i as int] == c);
                        } else {
                            assert(cview.take(i as int).contains(c));
                            let j = choose|j: int|
                                0 <= j < i && cview.take(i as int)[j] == c;
                            assert(cview.take(i + 1)[j] == c);
                        }
                    }
                    assert forall|c: Seq<char>|
                        cview.take(i + 1).contains(c) && live@.dom().contains(
                            c,
                        ) implies #[trigger] data@.dom().contains(c) by {
                        let j = choose|j: int| 0 <= j <= i && #[trigger] cview.take(i + 1)[j] == c;
                        if j < i {
                            assert(cview.take(i as int)[j] == c);
                            assert(cview.take(i as int).contains(c));
                        }
                    }
                }
            },
            None => {
                proof {
                    reveal_with_fuel(Seq::filter, 2);
                    assert(!present_in(*live)(comp@));
                    assert(cview.take(i + 1).filter(present_in(*live)) == cview.take(
                        i as int,
                    ).filter(present_in(*live)));
                    assert forall|c: Seq<char>| #[trigger] data@.dom().contains(c) implies (
                    cview.take(i + 1).contains(c) && live@.dom().contains(c)) by {
                        assert(cview.take(i as int).contains(c));
                        let j = choose|j: int| 0 <= j < i && cview.take(i as int)[j] == c;
                        assert(cview.take(i + 1)[j] == c);
                    }
                    assert forall|c: Seq<char>|
                        cview.take(i + 1).contains(c) && live@.dom().contains(
                            c,
                        ) implies #[trigger] data@.dom().contains(c) by {
                        let j = choose|j: int| 0 <= j <= i && #[trigger] cview.take(i + 1)[j] == c;
                        if j < i {
                            assert(cview.take(i as int)[j] == c);
                            assert(cview.take(i as int).contains(c));
                        } else {
                            assert(cview[i as int] == c);
                        }
                    }
                }
            },
        }
        i = i + 1;
    }
    proof {
        reveal_with_fuel(Seq::filter, 1);
        if cview.len() == 0 {
            assert(cview.take(0) =~= cview);
        }
    }
    let rec = CaptureRec {
        name: name.clone(),
        created,
        description: String::new(),
        items,
        data,
    };
    store.push_rec(rec);
    proof {
        assert(cview.take(cview.len() as int) =~= cview);
        assert(final(store)@.dom() =~= old(store)@.dom().insert(name@));
    }
    Ok(())
}


/// The effect on the live tree of restoring one component `c` from
/// captured `data`: when a captured copy exists, the live directory (if
/// any) moves aside under `c + suf`, and the captured copy lands at `c`;
/// otherwise nothing changes.
pub open spec fn restore_step(
    live: Map<Seq<char>, Map<Seq<char>, Seq<char>>>,
    data: Map<Seq<char>, Map<Seq<char>, Seq<char>>>,
    c: Seq<char>,
    suf: Seq<char>,
) -> Map<Seq<char>, Map<Seq<char>, Seq<char>>> {
    if data.dom().contains(c) {
        let backed = if live.dom().contains(c) {
            live.insert(c + suf, live[c])
        } else {
            live
        };
        backed.insert(c, data[c])
    } else {
        live
    }
}

/// The effect of restoring the recorded components in order.
pub open spec fn restore_effect(
    live: Map<Seq<char>, Map<Seq<char>, Seq<char>>>,
    data: Map<Seq<char>, Map<Seq<char>, Seq<char>>>,
    items: Seq<Seq<char>>,
    suf: Seq<char>,
) -> Map<Seq<char>, Map<Seq<char>, Seq<char>>>
    decreases items.len(),
{
    if items.len() == 0 {
        live
    } else {
        restore_effect(restore_step(live, data, items[0], suf), data, items.drop_first(), suf)
    }
}

pub proof fn lemma_restore_effect_push(
    live: Map<Seq<char>, Map<Seq<char>, Seq<char>>>,
    data: Map<Seq<char>, Map<Seq<char>, Seq<char>>>,
    items: Seq<Seq<char>>,
    c: Seq<char>,
    suf: Seq<char>,
)
    ensures
        restore_effect(live, data, items.push(c), suf) == restore_step(
            restore_effect(live, data, items, suf),
            data,
            c,
            suf,
        ),
    decreases items.len(),
{
    reveal_with_fuel(restore_effect, 3);
    if items.len() == 0 {
        assert(items.push(c)[0] == c);
        assert(items.push(c).drop_first() =~= Seq::<Seq<char>>::empty());
    } else {
        assert(items.push(c)[0] == items[0]);
        assert(items.push(c).drop_first() =~= items.drop_first().push(c));
        lemma_restore_effect_push(
            restore_step(live, data, items[0], suf),
            data,
            items.drop_first(),
            c,
            suf,
        );
    }
}

/// Restore the capture named `name` over `live`: every recorded component
/// with a captured copy is copied back over its live location, the
/// previous live directory first moving aside under the reserved suffix.
/// Fails with `NotFound`, leaving `live` unchanged, when no capture of
/// that name exists.
pub fn restore(
    store: &CaptureStore,
    live: &mut DirSet,
    name: &String,
    suffix: &String,
) -> (r: Result<(), EngineError>)
    requires
        store.wf(),
        old(live).wf(),
        suffix@.len() > 0,
    ensures
        final(live).wf(),
        !store@.dom().contains(name@) ==> (r matches Err(EngineError::NotFound) && final(live)@
            == old(live)@),
        store@.dom().contains(name@) ==> (r matches Ok(_) && final(live)@ == restore_effect(
            old(live)@,
            store@[name@].data@,
            store@[name@].items.deep_view(),
            suffix@,
        )),
{
    let rec = match store.get(name) {
        None => {
            return Err(EngineError::NotFound);
        },
        Some(rc) => rc,
    };
    let ghost datav = rec.data@;
    let ghost itemsv = rec.items.deep_view();
    let n = rec.items.len();
    let mut i: usize = 0;
    while i < n
        invariant
            old(live).wf(),
            live.wf(),
            rec.data.wf(),
            n == rec.items@.len(),
            i <= n,
            datav == rec.data@,
            itemsv == rec.items.deep_view(),
            itemsv.len() == n,
            suffix@.len() > 0,
            live@ == restore_effect(old(live)@, datav, itemsv.take(i as int), suffix@),
        decreases n - i,
    {
        let comp = &rec.items[i];
        proof {
            assert(itemsv[i as int] == comp@);
            lemma_restore_effect_push(old(live)@, datav, itemsv.take(i as int), comp@, suffix@);
            assert(itemsv.take(i + 1) =~= itemsv.take(i as int).push(comp@));
        }
        let ghost before = live@;
        match rec.data.get(comp) {
            Some(d) => {
                let mut backup = comp.clone();
                backup.append(suffix.as_str());
                proof {
                    assert(backup@ == comp@ + suffix@);
                    assert(backup@.len() == comp@.len() + suffix@.len());
                    assert(backup@ != comp@);
                }
                if live.contains(comp) {
                    live.rename(comp, backup);
                }
                live.set(comp.clone(), d.duplicate());
                proof {
                    assert(live@ =~= restore_step(before, datav, comp@, suffix@));
                }
            },
            None => {
                proof {
                    assert(live@ == restore_step(before, datav, comp@, suffix@));
                }
            },
        }
        i = i + 1;
    }
    proof {
        assert(itemsv.take(n as int) =~= itemsv);
    }
    Ok(())
}

/// Remove the capture named `name`.  Fails with `NotFound` when absent;
/// on success the name leaves the listing and every other capture stays.
pub fn delete(store: &mut CaptureStore, name: &String) -> (r: Result<(), EngineError>)
    requires
        old(store).wf(),
    ensures
        final(store).wf(),
        !old(store)@.dom().contains(name@) ==> (r matches Err(EngineError::NotFound)
            && final(store)@ == old(store)@ && final(store).names() == old(store).names()),
        old(store)@.dom().contains(name@) ==> (r matches Ok(_)
            && final(store)@ == old(store)@.remove(name@) && exists|idx: int|
            0 <= idx < old(store).names().len() && old(store).names()[idx] == name@
                && final(store).names() == old(store).names().remove(idx)),
{
    if store.remove_rec(name) {
        Ok(())
    } else {
        Err(EngineError::NotFound)
    }
}


/// Every element of a filtered sequence is an element of the original.
pub proof fn lemma_filter_subset(s: Seq<Seq<char>>, pred: spec_fn(Seq<char>) -> bool)
    ensures
        forall|i: int| 0 <= i < s.filter(pred).len() ==> s.contains(#[trigger] s.filter(pred)[i]),
    decreases s.len(),
{
    reveal(Seq::filter);
    if s.len() > 0 {
        lemma_filter_subset(s.drop_last(), pred);
        assert forall|i: int| 0 <= i < s.filter(pred).len() implies s.contains(
            #[trigger] s.filter(pred)[i],
        ) by {
            let sub = s.drop_last().filter(pred);
            if i < sub.len() {
                assert(sub[i] == s.filter(pred)[i]);
                assert(s.drop_last().contains(sub[i]));
                let j = choose|j: int| 0 <= j < s.drop_last().len() && s.drop_last()[j] == sub[i];
                assert(s[j] == sub[i]);
            } else {
                assert(s.filter(pred)[i] == s.last());
                assert(s[s.len() - 1] == s.last());
            }
        }
    }
}

/// Filtering a sequence of distinct elements keeps them distinct.
pub proof fn lemma_filter_distinct(s: Seq<Seq<char>>, pred: spec_fn(Seq<char>) -> bool)
    requires
        distinct_seqs(s),
    ensures
        distinct_seqs(s.filter(pred)),
    decreases s.len(),
{
    reveal(Seq::filter);
    if s.len() > 0 {
        assert(distinct_seqs(s.drop_last())) by {
            assert forall|a: int, b: int|
                0 <= a < b < s.drop_last().len() implies s.drop_last()[a] != s.drop_last()[b] by {
                assert(s[a] != s[b]);
            }
        }
        lemma_filter_distinct(s.drop_last(), pred);
        lemma_filter_subset(s.drop_last(), pred);
        let sub = s.drop_last().filter(pred);
        if pred(s.last()) {
            assert forall|a: int, b: int|
                0 <= a < b < s.filter(pred).len() implies s.filter(pred)[a] != s.filter(
                pred,
            )[b] by {
                if b == s.filter(pred).len() - 1 {
                    assert(s.filter(pred)[a] == sub[a]);
                    assert(s.drop_last().contains(sub[a]));
                    let j = choose|j: int|
                        0 <= j < s.drop_last().len() && s.drop_last()[j] == sub[a];
                    assert(s[j] == sub[a]);
                    assert(s[j] != s[s.len() - 1]);
                } else {
                    assert(s.filter(pred)[a] == sub[a]);
                    assert(s.filter(pred)[b] == sub[b]);
                }
            }
        }
    }
}

/// Appending the same suffix to two different texts keeps them different.
pub proof fn lemma_append_keeps_distinct(a: Seq<char>, b: Seq<char>, s: Seq<char>)
    requires
        a != b,
    ensures
        a + s != b + s,
{
    if a + s == b + s {
        assert((a + s).len() == a.len() + s.len());
        assert((b + s).len() == b.len() + s.len());
        assert(a.len() == b.len());
        assert(a =~= (a + s).take(a.len() as int));
        assert(b =~= (b + s).take(b.len() as int));
    }
}

/// Restoring components that are all different from `k`, and whose backup
/// names are all different from `k`, leaves `k` untouched.
pub proof fn lemma_restore_effect_untouched(
    live: Map<Seq<char>, Map<Seq<char>, Seq<char>>>,
    data: Map<Seq<char>, Map<Seq<char>, Seq<char>>>,
    items: Seq<Seq<char>>,
    suf: Seq<char>,
    k: Seq<char>,
)
    requires
        forall|i: int| 0 <= i < items.len() ==> #[trigger] items[i] != k && items[i] + suf != k,
    ensures
        restore_effect(live, data, items, suf).dom().contains(k) == live.dom().contains(k),
        live.dom().contains(k) ==> restore_effect(live, data, items, suf)[k] == live[k],
    decreases items.len(),
{
    if items.len() > 0 {
        let x = items[0];
        assert(items[0] != k && items[0] + suf != k);
        let l1 = restore_step(live, data, x, suf);
        assert(l1.dom().contains(k) == live.dom().contains(k));
        assert(live.dom().contains(k) ==> l1[k] == live[k]);
        assert(forall|i: int|
            0 <= i < items.drop_first().len() ==> #[trigger] items.drop_first()[i] != k
                && items.drop_first()[i] + suf != k) by {
            assert forall|i: int| 0 <= i < items.drop_first().len() implies #[trigger]
            items.drop_first()[i] != k && items.drop_first()[i] + suf != k by {
                assert(items[i + 1] != k && items[i + 1] + suf != k);
            }
        }
        lemma_restore_effect_untouched(l1, data, items.drop_first(), suf, k);
    }
}

/// What a restore does at one recorded component `c` with a captured
/// copy: the live location ends up holding the captured content, and the
/// pre-restore live content, when there was any, sits at `c + suf`.
pub proof fn lemma_restore_effect_at(
    live: Map<Seq<char>, Map<Seq<char>, Seq<char>>>,
    data: Map<Seq<char>, Map<Seq<char>, Seq<char>>>,
    items: Seq<Seq<char>>,
    suf: Seq<char>,
    c: Seq<char>,
)
    requires
        distinct_seqs(items),
        forall|x: Seq<char>, y: Seq<char>|
            #![trigger items.contains(x), items.contains(y)]
            items.contains(x) && items.contains(y) ==> x + suf != y,
        items.contains(c),
        data.dom().contains(c),
    ensures
        restore_effect(live, data, items, suf).dom().contains(c),
        restore_effect(live, data, items, suf)[c] == data[c],
        live.dom().contains(c) ==> restore_effect(live, data, items, suf).dom().contains(c + suf)
            && restore_effect(live, data, items, suf)[c + suf] == live[c],
    decreases items.len(),
{
    let x = items[0];
    let rest = items.drop_first();
    let l1 = restore_step(live, data, x, suf);
    assert(distinct_seqs(rest)) by {
        assert forall|a: int, b: int| 0 <= a < b < rest.len() implies rest[a] != rest[b] by {
            assert(items[a + 1] != items[b + 1]);
        }
    }
    assert(forall|x2: Seq<char>| rest.contains(x2) ==> items.contains(x2)) by {
        assert forall|x2: Seq<char>| rest.contains(x2) implies items.contains(x2) by {
            let i = choose|i: int| 0 <= i < rest.len() && rest[i] == x2;
            assert(items[i + 1] == x2);
        }
    }
    if x == c {
        assert(items.contains(x)) by {
            assert(items[0] == x);
        }
        assert forall|i: int| 0 <= i < rest.len() implies #[trigger] rest[i] != c && rest[i] + suf
            != c by {
            assert(items[i + 1] == rest[i]);
            assert(items[i + 1] != items[0]);
            assert(items.contains(rest[i]));
            assert(rest[i] + suf != c);
        }
        lemma_restore_effect_untouched(l1, data, rest, suf, c);
        if live.dom().contains(c) {
            assert(c + suf != c) by {
                assert(items.contains(c));
                assert((c + suf) != c);
            }
            assert(l1.dom().contains(c + suf) && l1[c + suf] == live[c]);
            assert forall|i: int| 0 <= i < rest.len() implies #[trigger] rest[i] != (c + suf) && (
            rest[i] + suf) != (c + suf) by {
                assert(items.contains(rest[i]));
                assert(rest[i] != c + suf);
                if rest[i] + suf == c + suf {
                    lemma_append_keeps_distinct(rest[i], c, suf);
                    assert(items[choose|i2: int|
                        0 <= i2 < rest.len() && rest[i2] == rest[i]] == rest[i]);
                }
            }
            lemma_restore_effect_untouched(l1, data, rest, suf, c + suf);
        }
    } else {
        assert(rest.contains(c)) by {
            let i = choose|i: int| 0 <= i < items.len() && items[i] == c;
            assert(i != 0);
            assert(rest[i - 1] == c);
        }
        assert(items.contains(x)) by {
            assert(items[0] == x);
        }
        assert(x + suf != c);
        assert(l1.dom().contains(c) == live.dom().contains(c));
        assert(live.dom().contains(c) ==> l1[c] == live[c]);
        lemma_restore_effect_at(l1, data, rest, suf, c);
    }
}

/// A freshly created capture is listed, exactly once.
pub proof fn lemma_created_listed_once(
    s0: CaptureStore,
    s1: CaptureStore,
    live: DirSet,
    name: Seq<char>,
    comps: Seq<Seq<char>>,
    created: Seq<char>,
)
    requires
        s0.wf(),
        !s0@.dom().contains(name),
        capture_post(s0, s1, live, name, comps, created),
    ensures
        s1.names().contains(name),
        forall|i: int, j: int|
            #![trigger s1.names()[i], s1.names()[j]]
            0 <= i < s1.names().len() && 0 <= j < s1.names().len() && s1.names()[i] == name
                && s1.names()[j] == name ==> i == j,
{
    lemma_assoc_map_dom(s0.pairs());
    assert(!s0.names().contains(name));
    assert(s1.names()[s1.names().len() - 1] == name);
    assert forall|i: int, j: int|
        #![trigger s1.names()[i], s1.names()[j]]
        0 <= i < s1.names().len() && 0 <= j < s1.names().len() && s1.names()[i] == name
            && s1.names()[j] == name implies i == j by {
        if i < s0.names().len() {
            assert(s0.names()[i] == name);
            assert(s0.names().contains(name));
        }
        if j < s0.names().len() {
            assert(s0.names()[j] == name);
            assert(s0.names().contains(name));
        }
    }
}

/// A created capture is present, so a second create of the same name
/// meets the `AlreadyExists` condition of [`capture`], which leaves the
/// store unchanged.
pub proof fn lemma_duplicate_create_detected(
    s0: CaptureStore,
    s1: CaptureStore,
    live: DirSet,
    name: Seq<char>,
    comps: Seq<Seq<char>>,
    created: Seq<char>,
)
    requires
        capture_post(s0, s1, live, name, comps, created),
    ensures
        s1@.dom().contains(name),
{
}

/// After a delete, the deleted name is no longer listed.
pub proof fn lemma_deleted_not_listed(
    names0: Seq<Seq<char>>,
    names1: Seq<Seq<char>>,
    name: Seq<char>,
    idx: int,
)
    requires
        distinct_seqs(names0),
        0 <= idx < names0.len(),
        names0[idx] == name,
        names1 == names0.remove(idx),
    ensures
        !names1.contains(name),
{
    if names1.contains(name) {
        let j = choose|j: int| 0 <= j < names1.len() && names1[j] == name;
        if j < idx {
            assert(names0[j] == name);
        } else {
            assert(names0[j + 1] == name);
        }
    }
}


/// Round trip: restoring a capture over any later live tree puts back, at
/// every component that was present at capture time, content identical to
/// the captured content; and the pre-restore live content of such a
/// component, when there is any, sits at its reserved backup name.
pub proof fn lemma_capture_restore_round_trip(
    s0: CaptureStore,
    s1: CaptureStore,
    live0: DirSet,
    live1: Map<Seq<char>, Map<Seq<char>, Seq<char>>>,
    name: Seq<char>,
    comps: Seq<Seq<char>>,
    created: Seq<char>,
    suf: Seq<char>,
    c: Seq<char>,
)
    requires
        capture_post(s0, s1, live0, name, comps, created),
        distinct_seqs(comps),
        forall|x: Seq<char>, y: Seq<char>|
            #![trigger comps.contains(x), comps.contains(y)]
            comps.contains(x) && comps.contains(y) ==> x + suf != y,
        comps.contains(c),
        live0@.dom().contains(c),
    ensures
        restore_effect(live1, s1@[name].data@, s1@[name].items.deep_view(), suf).dom().contains(
            c,
        ),
        restore_effect(live1, s1@[name].data@, s1@[name].items.deep_view(), suf)[c] == live0@[c],
        live1.dom().contains(c) ==> restore_effect(
            live1,
            s1@[name].data@,
            s1@[name].items.deep_view(),
            suf,
        ).dom().contains(c + suf) && restore_effect(
            live1,
            s1@[name].data@,
            s1@[name].items.deep_view(),
            suf,
        )[c + suf] == live1[c],
{
    let items = s1@[name].items.deep_view();
    let data = s1@[name].data@;
    let pred = present_in(live0);
    assert(items == comps.filter(pred));
    lemma_filter_distinct(comps, pred);
    lemma_filter_subset(comps, pred);
    let i = choose|i: int| 0 <= i < comps.len() && comps[i] == c;
    assert(pred(comps[i]));
    comps.lemma_filter_contains(pred, i);
    assert(items.contains(c));
    assert forall|x: Seq<char>, y: Seq<char>|
        #![trigger items.contains(x), items.contains(y)]
        items.contains(x) && items.contains(y) implies x + suf != y by {
        let a = choose|a: int| 0 <= a < items.len() && items[a] == x;
        let b = choose|b: int| 0 <= b < items.len() && items[b] == y;
        assert(comps.contains(items[a]));
        assert(comps.contains(items[b]));
    }
    assert(data.dom().contains(c));
    lemma_restore_effect_at(live1, data, items, suf, c);
    assert(data[c] == live0@[c]);
}


/// The canonical metadata text of one capture record, under the given
/// list key.
pub fn metadata_text(rec: &CaptureRec, key: &String) -> (r: String)
    ensures
        r@ == crate::meta::spec_encode(
            rec.name@,
            rec.created@,
            rec.description@,
            key@,
            rec.items.deep_view(),
        ),
{
    crate::meta::encode_metadata(&rec.name, &rec.created, &rec.description, key, &rec.items)
}

} // verus!




