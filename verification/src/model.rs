//! The in-memory model of the user's configuration tree.
//!
//! A [`Dir`] is one component's directory: a finite map from relative file
//! paths to text content.  A [`DirSet`] maps component names to directories;
//! it stands both for the live configuration root and for the captured data
//! of a snapshot or container.  Both are association lists with distinct
//! keys, viewed as `Map<Seq<char>, _>`.

use vstd::prelude::*;

verus! {

/// The spec-level map denoted by an association list, later entries winning.
pub open spec fn assoc_map<V>(s: Seq<(Seq<char>, V)>) -> Map<Seq<char>, V>
    decreases s.len(),
{
    if s.len() == 0 {
        Map::empty()
    } else {
        assoc_map(s.drop_last()).insert(s.last().0, s.last().1)
    }
}

/// The keys of an association list, in order.
pub open spec fn assoc_keys<V>(s: Seq<(Seq<char>, V)>) -> Seq<Seq<char>> {
    s.map_values(|p: (Seq<char>, V)| p.0)
}

/// No two elements of `s` are equal.
pub open spec fn distinct_seqs(s: Seq<Seq<char>>) -> bool {
    forall|i: int, j: int| 0 <= i < j < s.len() ==> s[i] != s[j]
}

pub proof fn lemma_assoc_map_dom<V>(s: Seq<(Seq<char>, V)>)
    ensures
        forall|k: Seq<char>|
            #[trigger] assoc_map(s).dom().contains(k) <==> assoc_keys(s).contains(k),
    decreases s.len(),
{
    if s.len() > 0 {
        lemma_assoc_map_dom(s.drop_last());
        assert forall|k: Seq<char>|
            #[trigger] assoc_map(s).dom().contains(k) <==> assoc_keys(s).contains(k) by {
            if assoc_map(s).dom().contains(k) {
                if k == s.last().0 {
                    assert(assoc_keys(s)[s.len() - 1] == k);
                } else {
                    assert(assoc_map(s.drop_last()).dom().contains(k));
                    assert(assoc_keys(s.drop_last()).contains(k));
                    let i = choose|i: int|
                        0 <= i < assoc_keys(s.drop_last()).len() && assoc_keys(s.drop_last())[i]
                            == k;
                    assert(assoc_keys(s)[i] == k);
                }
            }
            if assoc_keys(s).contains(k) {
                let i = choose|i: int| 0 <= i < assoc_keys(s).len() && assoc_keys(s)[i] == k;
                if i == s.len() - 1 {
                    assert(assoc_map(s).dom().contains(k));
                } else {
                    assert(assoc_keys(s.drop_last())[i] == k);
                    assert(assoc_map(s.drop_last()).dom().contains(k));
                }
            }
        }
    }
}

pub proof fn lemma_assoc_map_index<V>(s: Seq<(Seq<char>, V)>, i: int)
    requires
        distinct_seqs(assoc_keys(s)),
        0 <= i < s.len(),
    ensures
        assoc_map(s).dom().contains(s[i].0),
        assoc_map(s)[s[i].0] == s[i].1,
    decreases s.len(),
{
    if i == s.len() - 1 {
    } else {
        assert(assoc_keys(s)[i] != assoc_keys(s)[s.len() - 1]);
        assert(distinct_seqs(assoc_keys(s.drop_last()))) by {
            assert forall|a: int, b: int|
                0 <= a < b < assoc_keys(s.drop_last()).len() implies assoc_keys(s.drop_last())[a]
                != assoc_keys(s.drop_last())[b] by {
                assert(assoc_keys(s)[a] != assoc_keys(s)[b]);
            }
        }
        assert(s.drop_last()[i] == s[i]);
        lemma_assoc_map_index(s.drop_last(), i);
    }
}

pub proof fn lemma_assoc_map_push<V>(s: Seq<(Seq<char>, V)>, p: (Seq<char>, V))
    ensures
        assoc_map(s.push(p)) == assoc_map(s).insert(p.0, p.1),
{
    assert(s.push(p).drop_last() =~= s);
    assert(s.push(p).last() == p);
}

pub proof fn lemma_assoc_map_update<V>(s: Seq<(Seq<char>, V)>, i: int, v: V)
    requires
        distinct_seqs(assoc_keys(s)),
        0 <= i < s.len(),
    ensures
        assoc_map(s.update(i, (s[i].0, v))) =~= assoc_map(s).insert(s[i].0, v),
    decreases s.len(),
{
    let k = s[i].0;
    let t = s.update(i, (k, v));
    if i == s.len() - 1 {
        assert(t.drop_last() =~= s.drop_last());
        assert(t.last() == (k, v));
    } else {
        assert(distinct_seqs(assoc_keys(s.drop_last()))) by {
            assert forall|a: int, b: int|
                0 <= a < b < assoc_keys(s.drop_last()).len() implies assoc_keys(s.drop_last())[a]
                != assoc_keys(s.drop_last())[b] by {
                assert(assoc_keys(s)[a] != assoc_keys(s)[b]);
            }
        }
        assert(s.drop_last()[i] == s[i]);
        lemma_assoc_map_update(s.drop_last(), i, v);
        assert(t.drop_last() =~= s.drop_last().update(i, (k, v)));
        assert(t.last() == s.last());
        assert(assoc_keys(s)[i] != assoc_keys(s)[s.len() - 1]);
        assert(assoc_map(t) =~= assoc_map(s).insert(k, v));
    }
}

pub proof fn lemma_assoc_map_remove<V>(s: Seq<(Seq<char>, V)>, i: int)
    requires
        distinct_seqs(assoc_keys(s)),
        0 <= i < s.len(),
    ensures
        assoc_map(s.remove(i)) =~= assoc_map(s).remove(s[i].0),
    decreases s.len(),
{
    let k = s[i].0;
    if i == s.len() - 1 {
        assert(s.remove(i) =~= s.drop_last());
        lemma_assoc_map_dom(s.drop_last());
        assert forall|a: int|
            0 <= a < assoc_keys(s.drop_last()).len() implies assoc_keys(s.drop_last())[a] != k by {
            assert(assoc_keys(s)[a] != assoc_keys(s)[s.len() - 1]);
        }
        assert(!assoc_keys(s.drop_last()).contains(k));
        assert(!assoc_map(s.drop_last()).dom().contains(k));
        assert(assoc_map(s.drop_last()) =~= assoc_map(s.drop_last()).insert(k, s[i].1).remove(k));
    } else {
        assert(distinct_seqs(assoc_keys(s.drop_last()))) by {
            assert forall|a: int, b: int|
                0 <= a < b < assoc_keys(s.drop_last()).len() implies assoc_keys(s.drop_last())[a]
                != assoc_keys(s.drop_last())[b] by {
                assert(assoc_keys(s)[a] != assoc_keys(s)[b]);
            }
        }
        assert(s.drop_last()[i] == s[i]);
        lemma_assoc_map_remove(s.drop_last(), i);
        assert(s.remove(i).drop_last() =~= s.drop_last().remove(i));
        assert(s.remove(i).last() == s.last());
        assert(assoc_keys(s)[i] != assoc_keys(s)[s.len() - 1]);
        assert(assoc_map(s.remove(i)) =~= assoc_map(s).remove(k));
    }
}

/// One file of a component directory: a relative path and its content.
pub struct FileEntry {
    pub name: String,
    pub data: String,
}

/// One component's directory: relative file paths mapped to content.
pub struct Dir {
    files: Vec<FileEntry>,
}

impl Dir {
    pub closed spec fn pairs(&self) -> Seq<(Seq<char>, Seq<char>)> {
        self.files@.map_values(|e: FileEntry| (e.name@, e.data@))
    }

    /// The file names, in insertion order.
    pub closed spec fn file_names(&self) -> Seq<Seq<char>> {
        assoc_keys(self.pairs())
    }

    pub closed spec fn wf(&self) -> bool {
        distinct_seqs(self.file_names())
    }

    pub fn new() -> (r: Dir)
        ensures
            r@ == Map::<Seq<char>, Seq<char>>::empty(),
            r.wf(),
            r.file_names() == Seq::<Seq<char>>::empty(),
    {
        let r = Dir { files: Vec::new() };
        proof {
            assert(r.pairs() =~= Seq::<(Seq<char>, Seq<char>)>::empty());
            assert(r.file_names() =~= Seq::<Seq<char>>::empty());
        }
        r
    }

    fn index_of(&self, name: &String) -> (r: Option<usize>)
        ensures
            match r {
                Some(i) => i < self.files@.len() && self.pairs()[i as int].0 == name@,
                None => !self.file_names().contains(name@),
            },
    {
        let mut i: usize = 0;
        while i < self.files.len()
            invariant
                i <= self.files@.len(),
                forall|j: int| 0 <= j < i ==> self.pairs()[j].0 != name@,
            decreases self.files@.len() - i,
        {
            proof {
                assert(self.pairs()[i as int] == (self.files@[i as int].name@,
                self.files@[i as int].data@));
            }
            if self.files[i].name == *name {
                return Some(i);
            }
            i = i + 1;
        }
        proof {
            assert forall|j: int| 0 <= j < self.file_names().len() implies self.file_names()[j]
                != name@ by {
                assert(self.pairs()[j].0 != name@);
            }
        }
        None
    }

    pub fn get_file(&self, name: &String) -> (r: Option<&String>)
        requires
            self.wf(),
        ensures
            match r {
                Some(d) => self@.dom().contains(name@) && d@ == self@[name@],
                None => !self@.dom().contains(name@),
            },
    {
        proof {
            lemma_assoc_map_dom(self.pairs());
        }
        match self.index_of(name) {
            Some(i) => {
                proof {
                    lemma_assoc_map_index(self.pairs(), i as int);
                }
                Some(&self.files[i].data)
            },
            None => None,
        }
    }

    /// Insert or overwrite one file.
    pub fn set_file(&mut self, name: String, data: String)
        requires
            old(self).wf(),
        ensures
            final(self).wf(),
            final(self)@ == old(self)@.insert(name@, data@),
            old(self)@.dom().contains(name@) ==> final(self).file_names() == old(self).file_names(),
            !old(self)@.dom().contains(name@) ==> final(self).file_names() == old(
                self,
            ).file_names().push(name@),
    {
        proof {
            lemma_assoc_map_dom(self.pairs());
        }
        match self.index_of(&name) {
            Some(i) => {
                proof {
                    lemma_assoc_map_index(self.pairs(), i as int);
                    lemma_assoc_map_update(self.pairs(), i as int, data@);
                }
                let ghost p0 = self.pairs();
                let mut e = self.files.remove(i);
                e.data = data;
                self.files.insert(i, e);
                proof {
                    assert(self.pairs() =~= p0.update(i as int, (name@, data@)));
                    assert(assoc_keys(self.pairs()) =~= assoc_keys(p0));
                    assert(self@ =~= old(self)@.insert(name@, data@));
                }
            },
            None => {
                let ghost p0 = self.pairs();
                self.files.push(FileEntry { name, data });
                proof {
                    assert(self.pairs() =~= p0.push((name@, data@)));
                    lemma_assoc_map_push(p0, (name@, data@));
                    assert(assoc_keys(self.pairs()) =~= assoc_keys(p0).push(name@));
                    assert(distinct_seqs(assoc_keys(self.pairs())));
                }
            },
        }
    }

    /// Remove one file; reports whether it was present.
    pub fn remove_file(&mut self, name: &String) -> (r: bool)
        requires
            old(self).wf(),
        ensures
            final(self).wf(),
            r == old(self)@.dom().contains(name@),
            final(self)@ == old(self)@.remove(name@),
    {
        proof {
            lemma_assoc_map_dom(self.pairs());
        }
        match self.index_of(name) {
            Some(i) => {
                proof {
                    assert(self.file_names()[i as int] == name@);
                    assert(self.file_names().contains(name@));
                    lemma_assoc_map_remove(self.pairs(), i as int);
                }
                let ghost p0 = self.pairs();
                self.files.remove(i);
                proof {
                    assert(self.pairs() =~= p0.remove(i as int));
                    assert(assoc_keys(self.pairs()) =~= assoc_keys(p0).remove(i as int));
                    assert(self@ =~= old(self)@.remove(name@));
                }
                true
            },
            None => {
                proof {
                    assert(!self.file_names().contains(name@));
                    assert(!self@.dom().contains(name@));
                    assert(self@ =~= old(self)@.remove(name@));
                }
                false
            },
        }
    }

    pub fn file_count(&self) -> (r: usize)
        ensures
            r == self.file_names().len(),
    {
        self.files.len()
    }

    pub fn file_at(&self, i: usize) -> (r: &FileEntry)
        requires
            self.wf(),
            i < self.file_names().len(),
        ensures
            r.name@ == self.file_names()[i as int],
            self@.dom().contains(r.name@),
            self@[r.name@] == r.data@,
    {
        proof {
            lemma_assoc_map_index(self.pairs(), i as int);
        }
        &self.files[i]
    }

    /// A content-identical copy.
    pub fn duplicate(&self) -> (r: Dir)
        requires
            self.wf(),
        ensures
            r.wf(),
            r@ == self@,
            r.file_names() == self.file_names(),
    {
        let mut files: Vec<FileEntry> = Vec::new();
        let mut i: usize = 0;
        while i < self.files.len()
            invariant
                self.wf(),
                i <= self.files@.len(),
                files@.map_values(|e: FileEntry| (e.name@, e.data@)) =~= self.pairs().take(i as int),
            decreases self.files@.len() - i,
        {
            files.push(
                FileEntry { name: self.files[i].name.clone(), data: self.files[i].data.clone() },
            );
            proof {
                assert(self.pairs()[i as int] == (self.files@[i as int].name@,
                self.files@[i as int].data@));
                assert(self.pairs().take(i + 1) =~= self.pairs().take(i as int).push(
                    self.pairs()[i as int],
                ));
                assert(files@.map_values(|e: FileEntry| (e.name@, e.data@)) =~= self.pairs().take(
                    i + 1,
                ));
            }
            i = i + 1;
        }
        let r = Dir { files };
        proof {
            assert(r.pairs() =~= self.pairs());
        }
        r
    }
}

impl View for Dir {
    type V = Map<Seq<char>, Seq<char>>;

    closed spec fn view(&self) -> Map<Seq<char>, Seq<char>> {
        assoc_map(self.pairs())
    }
}


/// One named component directory of a configuration tree.
pub struct DirEntry {
    pub name: String,
    pub dir: Dir,
}

/// A configuration tree: component names mapped to directories.
///
/// It models both the live configuration root and the captured data of a
/// snapshot or container.  Backups taken before an overwrite live beside
/// the component they back up, under the component name plus a reserved
/// suffix.
pub struct DirSet {
    dirs: Vec<DirEntry>,
}

impl DirSet {
    pub closed spec fn pairs(&self) -> Seq<(Seq<char>, Map<Seq<char>, Seq<char>>)> {
        self.dirs@.map_values(|e: DirEntry| (e.name@, e.dir@))
    }

    /// The component names, in insertion order.
    pub closed spec fn names(&self) -> Seq<Seq<char>> {
        assoc_keys(self.pairs())
    }

    pub closed spec fn wf(&self) -> bool {
        distinct_seqs(self.names()) && (forall|i: int|
            0 <= i < self.dirs@.len() ==> (#[trigger] self.dirs@[i].dir).wf())
    }

    pub fn new() -> (r: DirSet)
        ensures
            r@ == Map::<Seq<char>, Map<Seq<char>, Seq<char>>>::empty(),
            r.wf(),
            r.names() == Seq::<Seq<char>>::empty(),
    {
        let r = DirSet { dirs: Vec::new() };
        proof {
            assert(r.pairs() =~= Seq::<(Seq<char>, Map<Seq<char>, Seq<char>>)>::empty());
            assert(r.names() =~= Seq::<Seq<char>>::empty());
        }
        r
    }

    fn index_of(&self, name: &String) -> (r: Option<usize>)
        ensures
            match r {
                Some(i) => i < self.dirs@.len() && self.pairs()[i as int].0 == name@,
                None => !self.names().contains(name@),
            },
    {
        let mut i: usize = 0;
        while i < self.dirs.len()
            invariant
                i <= self.dirs@.len(),
                forall|j: int| 0 <= j < i ==> self.pairs()[j].0 != name@,
            decreases self.dirs@.len() - i,
        {
            proof {
                assert(self.pairs()[i as int] == (self.dirs@[i as int].name@,
                self.dirs@[i as int].dir@));
            }
            if self.dirs[i].name == *name {
                return Some(i);
            }
            i = i + 1;
        }
        proof {
            assert forall|j: int| 0 <= j < self.names().len() implies self.names()[j]
                != name@ by {
                assert(self.pairs()[j].0 != name@);
            }
        }
        None
    }

    pub fn contains(&self, name: &String) -> (r: bool)
        requires
            self.wf(),
        ensures
            r == self@.dom().contains(name@),
    {
        proof {
            lemma_assoc_map_dom(self.pairs());
        }
        match self.index_of(name) {
            Some(i) => {
                proof {
                    assert(self.names()[i as int] == name@);
                    assert(self.names().contains(name@));
                }
                true
            },
            None => false,
        }
    }

    pub fn get(&self, name: &String) -> (r: Option<&Dir>)
        requires
            self.wf(),
        ensures
            match r {
                Some(d) => self@.dom().contains(name@) && d@ == self@[name@] && d.wf(),
                None => !self@.dom().contains(name@),
            },
    {
        proof {
            lemma_assoc_map_dom(self.pairs());
        }
        match self.index_of(name) {
            Some(i) => {
                proof {
                    lemma_assoc_map_index(self.pairs(), i as int);
                }
                Some(&self.dirs[i].dir)
            },
            None => None,
        }
    }

    /// Insert or overwrite one component directory.
    pub fn set(&mut self, name: String, dir: Dir)
        requires
            old(self).wf(),
            dir.wf(),
        ensures
            final(self).wf(),
            final(self)@ == old(self)@.insert(name@, dir@),
            old(self)@.dom().contains(name@) ==> final(self).names() == old(self).names(),
            !old(self)@.dom().contains(name@) ==> final(self).names() == old(self).names().push(
                name@,
            ),
    {
        proof {
            lemma_assoc_map_dom(self.pairs());
        }
        match self.index_of(&name) {
            Some(i) => {
                proof {
                    assert(self.names()[i as int] == name@);
                    assert(self.names().contains(name@));
                    lemma_assoc_map_index(self.pairs(), i as int);
                    lemma_assoc_map_update(self.pairs(), i as int, dir@);
                }
                let ghost p0 = self.pairs();
                let mut e = self.dirs.remove(i);
                e.dir = dir;
                self.dirs.insert(i, e);
                proof {
                    assert(self.pairs() =~= p0.update(i as int, (name@, self.dirs@[i as int].dir@)));
                    assert(assoc_keys(self.pairs()) =~= assoc_keys(p0));
                    assert(final(self)@ =~= old(self)@.insert(name@, self.dirs@[i as int].dir@));
                }
            },
            None => {
                let ghost p0 = self.pairs();
                let ghost d0 = dir@;
                self.dirs.push(DirEntry { name, dir });
                proof {
                    assert(self.pairs() =~= p0.push((name@, d0)));
                    lemma_assoc_map_push(p0, (name@, d0));
                    assert(assoc_keys(self.pairs()) =~= assoc_keys(p0).push(name@));
                    assert(distinct_seqs(assoc_keys(self.pairs())));
                }
            },
        }
    }

    /// Remove one component directory; reports whether it was present.
    pub fn remove(&mut self, name: &String) -> (r: bool)
        requires
            old(self).wf(),
        ensures
            final(self).wf(),
            r == old(self)@.dom().contains(name@),
            final(self)@ == old(self)@.remove(name@),
    {
        proof {
            lemma_assoc_map_dom(self.pairs());
        }
        match self.index_of(name) {
            Some(i) => {
                proof {
                    assert(self.names()[i as int] == name@);
                    assert(self.names().contains(name@));
                    lemma_assoc_map_remove(self.pairs(), i as int);
                }
                let ghost p0 = self.pairs();
                self.dirs.remove(i);
                proof {
                    assert(self.pairs() =~= p0.remove(i as int));
                    assert(assoc_keys(self.pairs()) =~= assoc_keys(p0).remove(i as int));
                    assert(final(self)@ =~= old(self)@.remove(name@));
                }
                true
            },
            None => {
                proof {
                    assert(!self@.dom().contains(name@));
                    assert(final(self)@ =~= old(self)@.remove(name@));
                }
                false
            },
        }
    }

    /// Move a component directory aside, overwriting anything already at
    /// the target name; reports whether the source was present.
    pub fn rename(&mut self, from: &String, to: String) -> (r: bool)
        requires
            old(self).wf(),
            from@ != to@,
        ensures
            final(self).wf(),
            r == old(self)@.dom().contains(from@),
            r ==> final(self)@ == old(self)@.remove(from@).insert(to@, old(self)@[from@]),
            !r ==> final(self)@ == old(self)@,
    {
        proof {
            lemma_assoc_map_dom(self.pairs());
        }
        match self.index_of(from) {
            Some(i) => {
                proof {
                    assert(self.names()[i as int] == from@);
                    assert(self.names().contains(from@));
                    lemma_assoc_map_index(self.pairs(), i as int);
                    lemma_assoc_map_remove(self.pairs(), i as int);
                }
                let ghost p0 = self.pairs();
                let e = self.dirs.remove(i);
                proof {
                    assert(self.pairs() =~= p0.remove(i as int));
                    assert(assoc_keys(self.pairs()) =~= assoc_keys(p0).remove(i as int));
                    assert(e.dir.wf());
                }
                self.set(to, e.dir);
                true
            },
            None => false,
        }
    }

    /// Overwrite or create one file inside a named component directory;
    /// reports whether the directory was present.
    pub fn set_file_in(&mut self, dir_name: &String, file: String, data: String) -> (r: bool)
        requires
            old(self).wf(),
        ensures
            final(self).wf(),
            r == old(self)@.dom().contains(dir_name@),
            r ==> final(self)@ == old(self)@.insert(
                dir_name@,
                old(self)@[dir_name@].insert(file@, data@),
            ),
            !r ==> final(self)@ == old(self)@,
    {
        proof {
            lemma_assoc_map_dom(self.pairs());
        }
        match self.index_of(dir_name) {
            Some(i) => {
                proof {
                    assert(self.names()[i as int] == dir_name@);
                    assert(self.names().contains(dir_name@));
                    lemma_assoc_map_index(self.pairs(), i as int);
                }
                let ghost p0 = self.pairs();
                let mut e = self.dirs.remove(i);
                e.dir.set_file(file, data);
                let ghost d1 = e.dir@;
                self.dirs.insert(i, e);
                proof {
                    assert(self.pairs() =~= p0.update(i as int, (dir_name@, d1)));
                    assert(assoc_keys(self.pairs()) =~= assoc_keys(p0));
                    lemma_assoc_map_update(p0, i as int, d1);
                    assert(final(self)@ =~= old(self)@.insert(dir_name@, d1));
                }
                true
            },
            None => false,
        }
    }

    /// Remove one file inside a named component directory; reports whether
    /// the directory was present.
    pub fn remove_file_in(&mut self, dir_name: &String, file: &String) -> (r: bool)
        requires
            old(self).wf(),
        ensures
            final(self).wf(),
            r == old(self)@.dom().contains(dir_name@),
            r ==> final(self)@ == old(self)@.insert(
                dir_name@,
                old(self)@[dir_name@].remove(file@),
            ),
            !r ==> final(self)@ == old(self)@,
    {
        proof {
            lemma_assoc_map_dom(self.pairs());
        }
        match self.index_of(dir_name) {
            Some(i) => {
                proof {
                    assert(self.names()[i as int] == dir_name@);
                    assert(self.names().contains(dir_name@));
                    lemma_assoc_map_index(self.pairs(), i as int);
                }
                let ghost p0 = self.pairs();
                let mut e = self.dirs.remove(i);
                e.dir.remove_file(file);
                let ghost d1 = e.dir@;
                self.dirs.insert(i, e);
                proof {
                    assert(self.pairs() =~= p0.update(i as int, (dir_name@, d1)));
                    assert(assoc_keys(self.pairs()) =~= assoc_keys(p0));
                    lemma_assoc_map_update(p0, i as int, d1);
                    assert(final(self)@ =~= old(self)@.insert(dir_name@, d1));
                }
                true
            },
            None => false,
        }
    }

    pub fn dir_count(&self) -> (r: usize)
        ensures
            r == self.names().len(),
    {
        self.dirs.len()
    }

    pub fn dir_at(&self, i: usize) -> (r: &DirEntry)
        requires
            self.wf(),
            i < self.names().len(),
        ensures
            r.name@ == self.names()[i as int],
            self@.dom().contains(r.name@),
            self@[r.name@] == r.dir@,
            r.dir.wf(),
    {
        proof {
            lemma_assoc_map_index(self.pairs(), i as int);
        }
        &self.dirs[i]
    }
}

impl View for DirSet {
    type V = Map<Seq<char>, Map<Seq<char>, Seq<char>>>;

    closed spec fn view(&self) -> Map<Seq<char>, Map<Seq<char>, Seq<char>>> {
        assoc_map(self.pairs())
    }
}

} // verus!

