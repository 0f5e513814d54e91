//! Enumerating the files and symlinks under an input, as a worklist of
//! directories still to be read. The caller reads each directory the walker
//! hands out and gives back what it holds.
use vstd::prelude::*;
use crate::paths::{join, join_of, lemma_join_stays_under, lies_under, names_of, strip_base};

verus! {

/// What a path is on the filesystem, without following a symlink.
#[derive(Debug, Clone, Copy, PartialEq, Eq, Structural)]
pub enum NodeKind {
    File,
    Symlink,
    Dir,
}

/// One child of a directory: its name within the directory, and its kind.
pub struct DirEntry {
    pub name: String,
    pub kind: NodeKind,
}

/// The paths of the children of `dir` that are not directories, in order.
pub open spec fn files_in(dir: Seq<char>, entries: Seq<DirEntry>) -> Seq<Seq<char>>
    decreases entries.len(),
{
    if entries.len() == 0 {
        Seq::empty()
    } else {
        let rest = files_in(dir, entries.drop_last());
        if entries.last().kind == NodeKind::Dir {
            rest
        } else {
            rest.push(join_of(dir, entries.last().name@))
        }
    }
}

/// The paths of the children of `dir` that are directories, in order.
pub open spec fn dirs_in(dir: Seq<char>, entries: Seq<DirEntry>) -> Seq<Seq<char>>
    decreases entries.len(),
{
    if entries.len() == 0 {
        Seq::empty()
    } else {
        let rest = dirs_in(dir, entries.drop_last());
        if entries.last().kind == NodeKind::Dir {
            rest.push(join_of(dir, entries.last().name@))
        } else {
            rest
        }
    }
}

/// A walk in progress: directories still to be read, the directory read
/// last, and the files and symlinks found so far.
pub struct Walker {
    root: Ghost<Seq<char>>,
    pending: Vec<String>,
    current: Option<String>,
    found: Vec<String>,
}

impl Walker {
    /// The path the walk started from.
    pub closed spec fn root(&self) -> Seq<char> {
        self.root@
    }

    /// Directories still to be read.
    pub closed spec fn pending(&self) -> Seq<Seq<char>> {
        names_of(self.pending@)
    }

    /// The directory handed out last, whose children come next.
    pub closed spec fn current(&self) -> Option<Seq<char>> {
        match self.current {
            Some(d) => Some(d@),
            None => None,
        }
    }

    /// Files and symlinks found so far.
    pub closed spec fn found(&self) -> Seq<Seq<char>> {
        names_of(self.found@)
    }

    /// Every path the walk holds lies under the directory it started from.
    pub open spec fn inv(&self) -> bool {
        &&& forall|i: int| 0 <= i < self.pending().len() ==> lies_under(#[trigger] self.pending()[i], self.root())
        &&& forall|i: int| 0 <= i < self.found().len() ==> lies_under(#[trigger] self.found()[i], self.root())
        &&& self.current() matches Some(d) ==> lies_under(d, self.root())
    }

    /// A walk of `root`: a directory is read; a file or a symlink is the one
    /// path found, and a symlink is never followed.
    pub fn new(root: String, kind: NodeKind) -> (w: Walker)
        ensures
            w.root() == root@,
            w.current() is None,
            kind == NodeKind::Dir ==> w.pending() == seq![root@] && w.found() == Seq::<Seq<char>>::empty(),
            kind != NodeKind::Dir ==> w.pending() == Seq::<Seq<char>>::empty() && w.found() == seq![root@],
            w.inv(),
    {
        let ghost r = root@;
        let mut pending: Vec<String> = Vec::new();
        let mut found: Vec<String> = Vec::new();
        if kind == NodeKind::Dir {
            pending.push(root);
        } else {
            found.push(root);
        }
        let w = Walker { root: Ghost(r), pending, current: None, found };
        proof {
            assert(w.pending() =~= (if kind == NodeKind::Dir { seq![r] } else { Seq::<Seq<char>>::empty() }));
            assert(w.found() =~= (if kind == NodeKind::Dir { Seq::<Seq<char>>::empty() } else { seq![r] }));
            assert(lies_under(r, r));
        }
        w
    }

    /// Whether no directory is left to read.
    pub fn is_done(&self) -> (r: bool)
        ensures
            r == (self.pending().len() == 0),
    {
        self.pending.len() == 0
    }

    /// The next directory to read, if any; it becomes the current one.
    pub fn next_dir(&mut self) -> (r: Option<String>)
        ensures
            final(self).root() == old(self).root(),
            final(self).found() == old(self).found(),
            old(self).pending().len() == 0 ==> r is None && final(self).pending() == old(self).pending()
                && final(self).current() is None,
            old(self).pending().len() > 0 ==> (r matches Some(d) && d@ == old(self).pending().last()
                && final(self).current() == Some(d@)) && final(self).pending() == old(self).pending().drop_last(),
            old(self).inv() ==> final(self).inv(),
    {
        match self.pending.pop() {
            Some(d) => {
                proof {
                    assert(names_of(self.pending@) =~= names_of(old(self).pending@).drop_last());
                }
                self.current = Some(d.clone());
                Some(d)
            },
            None => {
                self.current = None;
                None
            },
        }
    }

    /// Takes in the children of the current directory: files and symlinks are
    /// found, directories are left to read. Without a current directory
    /// nothing changes.
    pub fn absorb(&mut self, entries: &Vec<DirEntry>)
        ensures
            final(self).root() == old(self).root(),
            final(self).current() == old(self).current(),
            old(self).current() matches Some(d) ==> final(self).found() == old(self).found() + files_in(d, entries@)
                && final(self).pending() == old(self).pending() + dirs_in(d, entries@),
            old(self).current() is None ==> final(self).found() == old(self).found()
                && final(self).pending() == old(self).pending(),
            old(self).inv() ==> final(self).inv(),
    {
        let dir = match &self.current {
            Some(d) => d.clone(),
            None => {
                return;
            },
        };
        let ghost d = dir@;
        let mut i: usize = 0;
        while i < entries.len()
            invariant
                i <= entries@.len(),
                self.root() == old(self).root(),
                self.current() == old(self).current(),
                self.current() == Some(d),
                dir@ == d,
                self.found() == old(self).found() + files_in(d, entries@.take(i as int)),
                self.pending() == old(self).pending() + dirs_in(d, entries@.take(i as int)),
                old(self).inv() ==> self.inv(),
            decreases entries@.len() - i,
        {
            let e = &entries[i];
            let p = join(&dir, &e.name);
            proof {
                assert(entries@.take(i + 1).drop_last() =~= entries@.take(i as int));
                assert(entries@.take(i + 1).last() == entries@[i as int]);
                if old(self).inv() {
                    lemma_join_stays_under(d, e.name@, self.root());
                }
            }
            let ghost pending_before = names_of(self.pending@);
            let ghost found_before = names_of(self.found@);
            let ghost taken = entries@.take(i + 1);
            if e.kind == NodeKind::Dir {
                self.pending.push(p);
                proof {
                    assert(names_of(self.pending@) =~= pending_before.push(p@));
                    assert(dirs_in(d, taken) == dirs_in(d, taken.drop_last()).push(join_of(d, e.name@)));
                    assert(files_in(d, taken) == files_in(d, taken.drop_last()));
                    assert(names_of(self.pending@) =~= old(self).pending() + dirs_in(d, taken));
                }
            } else {
                self.found.push(p);
                proof {
                    assert(names_of(self.found@) =~= found_before.push(p@));
                    assert(files_in(d, taken) == files_in(d, taken.drop_last()).push(join_of(d, e.name@)));
                    assert(dirs_in(d, taken) == dirs_in(d, taken.drop_last()));
                    assert(names_of(self.found@) =~= old(self).found() + files_in(d, taken));
                }
            }
            i = i + 1;
        }
        proof {
            assert(entries@.take(entries@.len() as int) =~= entries@);
        }
    }

    /// The files and symlinks found.
    pub fn into_found(self) -> (r: Vec<String>)
        ensures
            names_of(r@) == self.found(),
    {
        self.found
    }
}

/// Every path that a walk of a directory finds lies under that directory,
/// so each has a name relative to it.
pub proof fn lemma_found_lie_under(w: Walker)
    requires
        w.inv(),
    ensures
        forall|i: int| 0 <= i < w.found().len() ==> (strip_base(#[trigger] w.found()[i], w.root()) is Some),
{
    assert forall|i: int| 0 <= i < w.found().len() implies (strip_base(#[trigger] w.found()[i], w.root()) is Some) by {
        assert(lies_under(w.found()[i], w.root()));
    }
}

} // verus!
