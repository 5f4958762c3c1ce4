//! Where a `Makefile.toml` lives, and which directory of an upward walk
//! holds the nearest one.

use vstd::prelude::*;

use crate::path::PathBytes;

verus! {

/// The file name makerz looks for.
pub open spec fn makefile_name() -> Seq<u8> {
    vstd::utf8::encode_utf8("Makefile.toml"@)
}

/// One directory on the walk from a start directory up to the root, and
/// whether a regular file `Makefile.toml` sits in it.
#[derive(Debug)]
pub struct Ancestor {
    pub dir: PathBytes,
    pub has_makefile: bool,
}

/// Index of the first directory on the walk that holds a `Makefile.toml`.
pub open spec fn nearest_makefile(walk: Seq<Ancestor>) -> Option<int>
    decreases walk.len(),
{
    if walk.len() == 0 {
        None
    } else if walk[0].has_makefile {
        Some(0)
    } else {
        match nearest_makefile(walk.drop_first()) {
            Some(i) => Some(i + 1),
            None => None,
        }
    }
}

pub proof fn lemma_nearest_makefile(walk: Seq<Ancestor>)
    ensures
        nearest_makefile(walk) matches Some(i) ==> 0 <= i < walk.len() && walk[i].has_makefile
            && forall|j: int| 0 <= j < i ==> !(#[trigger] walk[j]).has_makefile,
        nearest_makefile(walk) is None ==> forall|j: int|
            0 <= j < walk.len() ==> !(#[trigger] walk[j]).has_makefile,
    decreases walk.len(),
{
    if walk.len() > 0 && !walk[0].has_makefile {
        lemma_nearest_makefile(walk.drop_first());
        assert forall|j: int| 1 <= j < walk.len() implies walk[j] == walk.drop_first()[j - 1] by {}
    }
}

/// Index of the first entry of `walk` that holds a `Makefile.toml`.
pub fn first_with_makefile(walk: &Vec<Ancestor>) -> (res: Option<usize>)
    ensures
        match res {
            Some(i) => nearest_makefile(walk@) == Some(i as int) && i < walk.len(),
            None => nearest_makefile(walk@) is None,
        },
{
    proof {
        lemma_nearest_makefile(walk@);
    }
    let mut i: usize = 0;
    while i < walk.len()
        invariant
            i <= walk.len(),
            forall|j: int| 0 <= j < i ==> !(#[trigger] walk@[j]).has_makefile,
            nearest_makefile(walk@) matches Some(k) ==> 0 <= k < walk.len() && walk@[k].has_makefile
                && forall|j: int| 0 <= j < k ==> !(#[trigger] walk@[j]).has_makefile,
            nearest_makefile(walk@) is None ==> forall|j: int|
                0 <= j < walk.len() ==> !(#[trigger] walk@[j]).has_makefile,
        decreases walk.len() - i,
    {
        if walk[i].has_makefile {
            return Some(i);
        }
        i = i + 1;
    }
    None
}

/// Reasons [`MakefileLocation::find`] can fail.
#[derive(Debug)]
pub enum FindError {
    /// No `Makefile.toml` was found between `start` (inclusive) and the
    /// filesystem root.
    NotFound { start: PathBytes },
}

/// Directory of a `Makefile.toml`.
#[derive(Debug, PartialEq, Eq, Clone)]
pub struct MakefileLocation {
    dir: PathBytes,
}

impl View for MakefileLocation {
    type V = Seq<u8>;

    closed spec fn view(&self) -> Seq<u8> {
        self.dir@
    }
}

impl MakefileLocation {
    /// The location of `dir/Makefile.toml`.
    pub fn new(dir: PathBytes) -> (res: Self)
        ensures
            res@ == dir@,
    {
        MakefileLocation { dir }
    }

    /// The nearest directory on the upward walk from `start` that holds a
    /// `Makefile.toml`; `walk` lists `start` and its ancestors, nearest
    /// first, each with whether it holds the file.
    pub fn find(start: &PathBytes, walk: &Vec<Ancestor>) -> (res: Result<Self, FindError>)
        ensures
            match nearest_makefile(walk@) {
                Some(i) => res matches Ok(loc) && loc@ == walk@[i].dir@,
                None => res matches Err(FindError::NotFound { start: s }) && s@ == start@,
            },
    {
        match first_with_makefile(walk) {
            Some(i) => Ok(MakefileLocation::new(walk[i].dir.duplicate())),
            None => Err(FindError::NotFound { start: start.duplicate() }),
        }
    }

    /// The directory holding the Makefile.
    pub fn dir(&self) -> (res: &PathBytes)
        ensures
            res@ == self@,
    {
        &self.dir
    }

    /// The path of the Makefile itself.
    pub fn file(&self) -> (res: PathBytes)
        ensures
            res@ == crate::path::join_bytes(self@, makefile_name()),
    {
        self.dir.join("Makefile.toml".as_bytes())
    }

    /// A copy of this location.
    pub fn duplicate(&self) -> (res: Self)
        ensures
            res@ == self@,
    {
        MakefileLocation { dir: self.dir.duplicate() }
    }
}

} // verus!
