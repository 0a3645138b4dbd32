//! The file table the executor redirects into and out of: a map from
//! file name to contents. It is held as a log of named entries where the
//! latest entry of a name is the file's current contents. The host
//! program decides what these files mean — on-disk files it syncs, or a
//! session-local table.

use vstd::prelude::*;

verus! {

/// One named file and its contents.
struct FsFile {
    name: String,
    data: String,
}

/// The index of the latest entry carrying the given name, or `-1` when
/// there is none.
spec fn last_index(files: Seq<FsFile>, name: Seq<char>) -> int
    decreases files.len(),
{
    if files.len() == 0 {
        -1
    } else if files.last().name@ == name {
        files.len() - 1
    } else {
        last_index(files.drop_last(), name)
    }
}

proof fn lemma_last_index_range(files: Seq<FsFile>, name: Seq<char>)
    ensures
        -1 <= last_index(files, name) < files.len(),
        last_index(files, name) >= 0 ==> files[last_index(files, name)].name@ == name,
    decreases files.len(),
{
    if files.len() > 0 && files.last().name@ != name {
        lemma_last_index_range(files.drop_last(), name);
    }
}

/// The file table.
pub struct Fs {
    files: Vec<FsFile>,
}

impl View for Fs {
    type V = Map<Seq<char>, Seq<char>>;

    closed spec fn view(&self) -> Map<Seq<char>, Seq<char>> {
        Map::new(
            |n: Seq<char>| last_index(self.files@, n) >= 0,
            |n: Seq<char>| self.files@[last_index(self.files@, n)].data@,
        )
    }
}

impl Fs {
    /// An empty file table.
    pub fn new() -> (r: Fs)
        ensures
            r@ == Map::<Seq<char>, Seq<char>>::empty(),
    {
        let r = Fs { files: Vec::new() };
        proof {
            assert(r@ =~= Map::<Seq<char>, Seq<char>>::empty());
        }
        r
    }

    /// The latest entry of the given name among the first `i` entries.
    fn find_last(&self, name: &String, i: usize) -> (r: Option<usize>)
        requires
            i <= self.files@.len(),
        ensures
            match r {
                Some(k) => k < i && last_index(self.files@.take(i as int), name@) == k as int,
                None => last_index(self.files@.take(i as int), name@) == -1,
            },
        decreases i,
    {
        if i == 0 {
            proof {
                assert(self.files@.take(0).len() == 0);
            }
            None
        } else {
            let ghost pre = self.files@.take(i as int);
            proof {
                assert(pre.last() == self.files@[i - 1]);
                assert(pre.drop_last() =~= self.files@.take(i - 1));
            }
            if self.files[i - 1].name == *name {
                Some(i - 1)
            } else {
                self.find_last(name, i - 1)
            }
        }
    }

    /// The contents of the named file, or `None` when the table has no
    /// such file.
    pub fn read(&self, name: &String) -> (r: Option<String>)
        ensures
            match r {
                Some(d) => self@.contains_key(name@) && d@ == self@[name@],
                None => !self@.contains_key(name@),
            },
    {
        let n = self.files.len();
        proof {
            assert(self.files@.take(n as int) =~= self.files@);
        }
        match self.find_last(name, n) {
            Some(k) => Some(self.files[k].data.clone()),
            None => None,
        }
    }

    /// Whether the table has a file of this name.
    pub fn contains(&self, name: &String) -> (r: bool)
        ensures
            r == self@.contains_key(name@),
    {
        let n = self.files.len();
        proof {
            assert(self.files@.take(n as int) =~= self.files@);
        }
        match self.find_last(name, n) {
            Some(_) => true,
            None => false,
        }
    }

    /// An exact copy of the table.
    pub fn duplicate(&self) -> (r: Fs)
        ensures
            r@ == self@,
    {
        let n = self.files.len();
        let mut files: Vec<FsFile> = Vec::new();
        let mut i: usize = 0;
        while i < n
            invariant
                i <= n,
                n == self.files@.len(),
                files@ == self.files@.take(i as int),
            decreases n - i,
        {
            let f = &self.files[i];
            files.push(FsFile { name: f.name.clone(), data: f.data.clone() });
            assert(files@ =~= self.files@.take((i + 1) as int));
            i = i + 1;
        }
        assert(files@ =~= self.files@);
        let r = Fs { files };
        proof {
            assert(r@ =~= self@);
        }
        r
    }

    /// Every file of the table, each name once with its current
    /// contents, in the order the names first entered the table's log.
    pub fn entries(&self) -> (r: Vec<(String, String)>)
        ensures
            forall|j: int| 0 <= j < r@.len() ==> self@.contains_key(#[trigger] r@[j].0@)
                && self@[r@[j].0@] == r@[j].1@,
            forall|j1: int, j2: int| 0 <= j1 < j2 < r@.len() ==> r@[j1].0@ != r@[j2].0@,
            forall|n: Seq<char>| self@.contains_key(n) ==> exists|j: int|
                0 <= j < r@.len() && (#[trigger] r@[j].0@) == n,
    {
        let n = self.files.len();
        proof {
            assert(self.files@.take(n as int) =~= self.files@);
        }
        let mut r: Vec<(String, String)> = Vec::new();
        let mut i: usize = 0;
        while i < n
            invariant
                i <= n,
                n == self.files@.len(),
                forall|j: int| 0 <= j < r@.len() ==> 0 <= last_index(
                    self.files@,
                    #[trigger] r@[j].0@,
                ) < i && self.files@[last_index(self.files@, r@[j].0@)].data@ == r@[j].1@,
                forall|j1: int, j2: int| 0 <= j1 < j2 < r@.len() ==> r@[j1].0@ != r@[j2].0@,
                forall|idx: int| 0 <= idx < i && last_index(
                    self.files@,
                    (#[trigger] self.files@[idx]).name@,
                ) == idx ==> exists|j: int| 0 <= j < r@.len() && r@[j].0@
                    == self.files@[idx].name@,
            decreases n - i,
        {
            let ghost r0 = r@;
            let name_i = self.files[i].name.clone();
            let canonical = match self.find_last(&name_i, n) {
                Some(k) => k == i,
                None => false,
            };
            proof {
                assert(self.files@.take(n as int) =~= self.files@);
                assert(canonical == (last_index(self.files@, self.files@[i as int].name@)
                    == i as int));
            }
            if canonical {
                let ghost prev = r@;
                let pair = (name_i, self.files[i].data.clone());
                r.push(pair);
                proof {
                    assert(r@[prev.len() as int] == pair);
                    assert(pair.0@ == self.files@[i as int].name@);
                    assert(pair.1@ == self.files@[i as int].data@);
                    assert(last_index(self.files@, pair.0@) == i as int);
                }
            }
            proof {
                assert forall|idx: int| 0 <= idx < i + 1 && last_index(
                    self.files@,
                    (#[trigger] self.files@[idx]).name@,
                ) == idx implies exists|j: int| 0 <= j < r@.len() && r@[j].0@
                    == self.files@[idx].name@ by {
                    if idx < i {
                        let j0 = choose|j: int|
                            0 <= j < r0.len() && r0[j].0@ == self.files@[idx].name@;
                        assert(r@[j0].0@ == self.files@[idx].name@);
                    } else {
                        assert(canonical);
                        assert(r@[r@.len() - 1].0@ == self.files@[idx].name@);
                    }
                }
            }
            i = i + 1;
        }
        proof {
            assert forall|nm: Seq<char>| self@.contains_key(nm) implies exists|j: int|
                0 <= j < r@.len() && (#[trigger] r@[j].0@) == nm by {
                lemma_last_index_range(self.files@, nm);
                let c = last_index(self.files@, nm);
                assert(self.files@[c].name@ == nm);
                assert(last_index(self.files@, self.files@[c].name@) == c);
            }
            assert forall|j: int| 0 <= j < r@.len() implies self@.contains_key(
                #[trigger] r@[j].0@,
            ) && self@[r@[j].0@] == r@[j].1@ by {
                assert(last_index(self.files@, r@[j].0@) >= 0);
            }
        }
        r
    }

    /// Makes the named file hold exactly the given contents, creating it
    /// if the table has no such file.
    pub fn write(&mut self, name: &String, data: String)
        ensures
            final(self)@ == old(self)@.insert(name@, data@),
    {
        let ghost before = self.files@;
        self.files.push(FsFile { name: name.clone(), data });
        proof {
            let after = self.files@;
            assert(after.drop_last() =~= before);
            assert(after.last().name@ == name@);
            assert forall|n: Seq<char>| n != name@ implies last_index(after, n) == last_index(
                before,
                n,
            ) by {
                assert(last_index(after, n) == last_index(after.drop_last(), n));
            }
            assert forall|n: Seq<char>| n != name@ && last_index(before, n) >= 0 implies after[
                last_index(after, n)
            ].data@ == before[last_index(before, n)].data@ by {
                lemma_last_index_range(before, n);
            }
            assert(final(self)@ =~= old(self)@.insert(name@, data@));
        }
    }
}

} // verus!
