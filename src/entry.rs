//! What goes into the archive for each path found: a regular entry whose
//! content is copied from the file, or a symlink entry that records where the
//! link points.
use vstd::prelude::*;
use crate::error::AthenaError;
use crate::paths::{names_of, relative_path, strip_base};

verus! {

/// What is known of a path when it is archived, without following a symlink.
pub struct EntryMeta {
    pub is_symlink: bool,
    /// Length in bytes of a regular file.
    pub size: u64,
    pub uid: u64,
    pub gid: u64,
    /// The raw target of a symlink, as read from the link.
    pub target: String,
}

/// One entry of the archive.
pub enum EntryPlan {
    /// A regular file: its header carries `size`, and its content is read
    /// from `source`.
    Regular { source: String, name: String, size: u64 },
    /// A symlink: no content, and the target as it was read.
    Symlink { name: String, target: String, uid: u64, gid: u64 },
}

/// `plan` is the entry for the path `path`, named relative to `base`, with
/// what `meta` says of it.
pub open spec fn plans(plan: EntryPlan, path: Seq<char>, base: Seq<char>, meta: EntryMeta) -> bool {
    &&& strip_base(path, base) matches Some(name)
    &&& if meta.is_symlink {
        plan matches EntryPlan::Symlink { name: n, target, uid, gid } && n@ == name && target@ == meta.target@
            && uid == meta.uid && gid == meta.gid
    } else {
        plan matches EntryPlan::Regular { source, name: n, size } && source@ == path && n@ == name && size
            == meta.size
    }
}

impl EntryPlan {
    /// The name of the entry inside the archive.
    pub open spec fn name_spec(&self) -> Seq<char> {
        match self {
            EntryPlan::Regular { name, .. } => name@,
            EntryPlan::Symlink { name, .. } => name@,
        }
    }

    /// The content size that the entry's header carries.
    pub open spec fn size_spec(&self) -> nat {
        match self {
            EntryPlan::Regular { size, .. } => *size as nat,
            EntryPlan::Symlink { .. } => 0,
        }
    }

    /// The name of the entry inside the archive.
    pub fn name(&self) -> (r: &String)
        ensures
            r@ == self.name_spec(),
    {
        match self {
            EntryPlan::Regular { name, .. } => name,
            EntryPlan::Symlink { name, .. } => name,
        }
    }

    /// The content size that the entry's header carries: none for a symlink.
    pub fn size(&self) -> (r: u64)
        ensures
            r as nat == self.size_spec(),
    {
        match self {
            EntryPlan::Regular { size, .. } => *size,
            EntryPlan::Symlink { .. } => 0,
        }
    }

    /// Whether the entry is a symlink.
    pub fn is_symlink(&self) -> (r: bool)
        ensures
            r == (self is Symlink),
    {
        match self {
            EntryPlan::Regular { .. } => false,
            EntryPlan::Symlink { .. } => true,
        }
    }
}

/// The entry for `path`, named relative to `base`; an error where `path`
/// does not lie under `base`.
pub fn plan_entry(path: &String, base: &String, meta: &EntryMeta) -> (r: Result<EntryPlan, AthenaError>)
    ensures
        strip_base(path@, base@) is None ==> r == Err::<EntryPlan, AthenaError>(AthenaError::OutsideInput),
        strip_base(path@, base@) is Some ==> (r matches Ok(p) && plans(p, path@, base@, *meta)),
{
    let name = match relative_path(path, base) {
        Some(n) => n,
        None => {
            return Err(AthenaError::OutsideInput);
        },
    };
    if meta.is_symlink {
        Ok(EntryPlan::Symlink { name, target: meta.target.clone(), uid: meta.uid, gid: meta.gid })
    } else {
        Ok(EntryPlan::Regular { source: path.clone(), name, size: meta.size })
    }
}

/// The entries of an archive of `paths`, one for each, in order, named
/// relative to `base`; an error where one of them does not lie under `base`.
pub fn plan_archive(paths: &Vec<String>, base: &String, metas: &Vec<EntryMeta>) -> (r: Result<
    Vec<EntryPlan>,
    AthenaError,
>)
    requires
        paths@.len() == metas@.len(),
    ensures
        (forall|i: int| 0 <= i < paths@.len() ==> (strip_base(#[trigger] paths@[i]@, base@) is Some)) ==> (r matches Ok(
            v,
        ) && v@.len() == paths@.len() && forall|i: int|
            0 <= i < paths@.len() ==> plans(#[trigger] v@[i], paths@[i]@, base@, metas@[i])),
        (exists|i: int| 0 <= i < paths@.len() && (strip_base(#[trigger] paths@[i]@, base@) is None)) ==> r
            == Err::<Vec<EntryPlan>, AthenaError>(AthenaError::OutsideInput),
{
    let mut v: Vec<EntryPlan> = Vec::new();
    let mut i: usize = 0;
    while i < paths.len()
        invariant
            i <= paths@.len() == metas@.len(),
            v@.len() == i,
            forall|j: int| 0 <= j < i ==> (strip_base(#[trigger] paths@[j]@, base@) is Some),
            forall|j: int| 0 <= j < i ==> plans(#[trigger] v@[j], paths@[j]@, base@, metas@[j]),
        decreases paths@.len() - i,
    {
        match plan_entry(&paths[i], base, &metas[i]) {
            Ok(p) => {
                v.push(p);
            },
            Err(e) => {
                return Err(e);
            },
        }
        i = i + 1;
    }
    Ok(v)
}

/// The names of the entries of an archive, in order.
pub open spec fn entry_names(v: Seq<EntryPlan>) -> Seq<Seq<char>> {
    v.map_values(|p: EntryPlan| p.name_spec())
}

/// The names that `paths` get inside an archive whose names are taken
/// relative to `base` (where each lies under it).
pub open spec fn names_under(paths: Seq<Seq<char>>, base: Seq<char>) -> Seq<Seq<char>> {
    paths.map_values(|p: Seq<char>| strip_base(p, base)->0)
}

/// The entries of an archive name exactly the paths it was planned from,
/// each relative to the base, one for one and in order.
pub proof fn lemma_archive_names(v: Seq<EntryPlan>, paths: Seq<String>, base: Seq<char>, metas: Seq<EntryMeta>)
    requires
        v.len() == paths.len() == metas.len(),
        forall|i: int| 0 <= i < paths.len() ==> plans(#[trigger] v[i], paths[i]@, base, metas[i]),
    ensures
        entry_names(v) == names_under(names_of(paths), base),
{
    assert forall|i: int| 0 <= i < v.len() implies entry_names(v)[i] == names_under(names_of(paths), base)[i] by {
        assert(plans(v[i], paths[i]@, base, metas[i]));
    }
    assert(entry_names(v) =~= names_under(names_of(paths), base));
}

/// A symlink is archived as a symlink entry with no content and with the
/// target exactly as it was read from the link.
pub proof fn lemma_symlink_entry(plan: EntryPlan, path: Seq<char>, base: Seq<char>, meta: EntryMeta)
    requires
        plans(plan, path, base, meta),
        meta.is_symlink,
    ensures
        plan is Symlink,
        plan.size_spec() == 0,
        plan matches EntryPlan::Symlink { target, .. } && target@ == meta.target@,
{
}

} // verus!
