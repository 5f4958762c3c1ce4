//! Walk a Makefile's top-level `extend` chain.
//!
//! The walk produces an ordered list of [`ParsedMakefile`] (ancestor → leaf)
//! for the active Makefile, refusing a chain that comes back to a Makefile
//! it has already visited. Reading and canonicalising files is the caller's
//! part: it hands each file's text to [`ChainWalk::load`] and the parsed
//! Makefile to [`ChainWalk::visit`], which decides whether the walk goes on
//! and where.

use vstd::prelude::*;

use crate::directive_parser::{makefile_of, parse_loaded, MakefileView, ParseMakefileError, ParsedMakefile};
use crate::location::MakefileLocation;
use crate::path::{copy_bytes, PathBytes};

verus! {

/// Why an `extend` chain could not be built.
#[derive(Debug)]
pub enum ChainError {
    /// A Makefile of the chain could not be parsed.
    Parse { location: MakefileLocation, source: ParseMakefileError },
    /// An `extend` names a file that does not exist.
    ExtendNotFound { target: PathBytes, from: PathBytes, source: std::io::Error },
    /// The chain comes back to this Makefile.
    Cycle { cycle_at: PathBytes },
}

/// The next Makefile of the chain: `target` as the `extend` of `from` names it.
#[derive(Debug)]
pub struct ExtendStep {
    pub target: PathBytes,
    pub from: PathBytes,
}

/// A walk along an `extend` chain, from the active Makefile towards its
/// ancestors.
pub struct ChainWalk {
    chain: Vec<ParsedMakefile>,
    seen: Vec<PathBytes>,
    current: MakefileLocation,
}

pub struct WalkView {
    /// The Makefiles visited, leaf first.
    pub chain: Seq<crate::directive_parser::MakefileView>,
    /// Their canonical paths, in the same order.
    pub seen: Seq<Seq<u8>>,
    /// The Makefile to visit next.
    pub current: Seq<u8>,
}

pub open spec fn paths_view(v: Seq<PathBytes>) -> Seq<Seq<u8>> {
    v.map_values(|p: PathBytes| p@)
}

pub open spec fn makefiles_view(v: Seq<ParsedMakefile>) -> Seq<crate::directive_parser::MakefileView> {
    v.map_values(|m: ParsedMakefile| m@)
}

impl View for ChainWalk {
    type V = WalkView;

    closed spec fn view(&self) -> WalkView {
        WalkView {
            chain: makefiles_view(self.chain@),
            seen: paths_view(self.seen@),
            current: self.current@,
        }
    }
}

impl ChainWalk {
    /// No Makefile is visited twice.
    #[verifier::type_invariant]
    closed spec fn no_repeats(self) -> bool {
        self@.seen.no_duplicates()
    }

    /// A walk that starts at `start`.
    pub fn start(start: MakefileLocation) -> (res: ChainWalk)
        ensures
            res@ == (WalkView { chain: Seq::empty(), seen: Seq::empty(), current: start@ }),
    {
        let res = ChainWalk { chain: Vec::new(), seen: Vec::new(), current: start };
        assert(res@.chain =~= Seq::<crate::directive_parser::MakefileView>::empty());
        assert(res@.seen =~= Seq::<Seq<u8>>::empty());
        res
    }

    /// The Makefile to visit next.
    pub fn current(&self) -> (res: &MakefileLocation)
        ensures
            res@ == self@.current,
    {
        &self.current
    }

    /// The current Makefile, parsed from the result of reading its file (see
    /// [`parse_loaded`]); a failure is [`ChainError::Parse`] at the current
    /// location.
    pub fn load(&self, content: Result<String, std::io::Error>) -> (res: Result<
        ParsedMakefile,
        ChainError,
    >)
        ensures
            match content {
                Err(source) => res matches Err(
                    ChainError::Parse { location, source: ParseMakefileError::Read { path, source: s } },
                ) && location@ == self@.current && path@ == crate::path::join_bytes(
                    self@.current,
                    crate::location::makefile_name(),
                ) && s == source,
                Ok(text) => match makefile_of(text@) {
                    Err(f) => res matches Err(ChainError::Parse { location, source })
                        && location@ == self@.current && source@ == f,
                    Ok((env, extend)) => res matches Ok(p) && p@ == (MakefileView {
                        location: self@.current,
                        env: env,
                        extend: extend,
                    }),
                },
            },
    {
        match parse_loaded(self.current.duplicate(), content) {
            Ok(parsed) => Ok(parsed),
            Err(source) => Err(ChainError::Parse { location: self.current.duplicate(), source }),
        }
    }

    /// Whether the walk has visited the Makefile at canonical path `path`.
    fn has_seen(&self, path: &PathBytes) -> (res: bool)
        ensures
            res == self@.seen.contains(path@),
    {
        let mut i: usize = 0;
        while i < self.seen.len()
            invariant
                i <= self.seen.len(),
                forall|j: int| 0 <= j < i ==> paths_view(self.seen@)[j] != path@,
            decreases self.seen.len() - i,
        {
            if bytes_equal(self.seen[i].as_bytes(), path.as_bytes()) {
                assert(paths_view(self.seen@)[i as int] == path@);
                return true;
            }
            i = i + 1;
        }
        false
    }

    /// Visits the current Makefile, parsed as `parsed`, whose file has the
    /// canonical path `canonical`. A Makefile already visited ends the walk
    /// with [`ChainError::Cycle`] and leaves the walk as it was. Otherwise it
    /// joins the chain, and the walk goes on to its `extend`, taken from the
    /// current Makefile's directory, if it has one.
    pub fn visit(&mut self, parsed: ParsedMakefile, canonical: PathBytes) -> (res: Result<
        Option<ExtendStep>,
        ChainError,
    >)
        ensures
            final(self)@.seen.no_duplicates(),
            match visit_view(old(self)@, parsed@, canonical@) {
                None => final(self)@ == old(self)@ && res is Err,
                Some(w) => final(self)@ == w && res is Ok,
            },
            old(self)@.seen.contains(canonical@) ==> {
                &&& final(self)@ == old(self)@
                &&& res matches Err(ChainError::Cycle { cycle_at }) && cycle_at@ == canonical@
            },
            !old(self)@.seen.contains(canonical@) ==> {
                &&& final(self)@.seen == old(self)@.seen.push(canonical@)
                &&& final(self)@.chain == old(self)@.chain.push(parsed@)
                &&& final(self)@.current == old(self)@.current
                &&& match parsed@.extend {
                    None => res matches Ok(None),
                    Some(rel) => res matches Ok(Some(step)) && step.target@
                        == crate::path::join_bytes(old(self)@.current, crate::makers::utf8(rel))
                        && step.from@ == crate::path::join_bytes(
                        old(self)@.current,
                        crate::location::makefile_name(),
                    ),
                }
            },
    {
        proof {
            use_type_invariant(&*self);
        }
        if self.has_seen(&canonical) {
            return Err(ChainError::Cycle { cycle_at: canonical });
        }
        let step = match parsed.extend() {
            Some(rel) => {
                let rel_bytes = copy_bytes(rel.as_bytes());
                let target = self.current.dir().join(rel_bytes.as_slice());
                Some(ExtendStep { target, from: self.current.file() })
            },
            None => None,
        };
        let ghost before = self@;
        let mut seen: Vec<PathBytes> = Vec::new();
        std::mem::swap(&mut seen, &mut self.seen);
        seen.push(canonical);
        assert(paths_view(seen@) =~= before.seen.push(canonical@));
        std::mem::swap(&mut seen, &mut self.seen);
        let mut chain: Vec<ParsedMakefile> = Vec::new();
        std::mem::swap(&mut chain, &mut self.chain);
        chain.push(parsed);
        std::mem::swap(&mut chain, &mut self.chain);
        assert(self@.seen =~= before.seen.push(canonical@));
        assert(self@.chain =~= before.chain.push(parsed@));
        Ok(step)
    }

    /// Moves the walk on to the Makefile in `dir`.
    pub fn advance(&mut self, dir: PathBytes)
        ensures
            final(self)@ == (WalkView {
                chain: old(self)@.chain,
                seen: old(self)@.seen,
                current: dir@,
            }),
    {
        proof {
            use_type_invariant(&*self);
        }
        self.current = MakefileLocation::new(dir);
    }

    /// The Makefiles visited, ancestor first, leaf last.
    pub fn into_chain(self) -> (res: Vec<ParsedMakefile>)
        ensures
            makefiles_view(res@) == self@.chain.reverse(),
    {
        let ghost all = self@.chain;
        let mut rest = self.chain;
        let mut res: Vec<ParsedMakefile> = Vec::new();
        while rest.len() > 0
            invariant
                all == makefiles_view(rest@) + makefiles_view(res@).reverse(),
            decreases rest.len(),
        {
            let ghost before_rest = makefiles_view(rest@);
            let ghost before_res = makefiles_view(res@);
            let m = rest.pop().unwrap();
            res.push(m);
            assert(makefiles_view(rest@) =~= before_rest.drop_last());
            assert(makefiles_view(res@) =~= before_res.push(m@));
            assert(makefiles_view(res@).reverse() =~= seq![m@] + before_res.reverse());
            assert(all =~= makefiles_view(rest@) + makefiles_view(res@).reverse());
        }
        assert(makefiles_view(res@).reverse().reverse() =~= makefiles_view(res@));
        res
    }
}

/// Whether two byte strings are equal.
pub fn bytes_equal(a: &[u8], b: &[u8]) -> (res: bool)
    ensures
        res == (a@ == b@),
{
    if a.len() != b.len() {
        return false;
    }
    let mut i: usize = 0;
    while i < a.len()
        invariant
            i <= a.len(),
            a.len() == b.len(),
            forall|j: int| 0 <= j < i ==> a@[j] == b@[j],
        decreases a.len() - i,
    {
        if a[i] != b[i] {
            return false;
        }
        i = i + 1;
    }
    assert(a@ =~= b@);
    true
}

/// A visit as [`ChainWalk::visit`] makes it: `None` when the walk has
/// already visited `canonical` (a cycle), else the walk with `m` and
/// `canonical` added.
pub open spec fn visit_view(w: WalkView, m: MakefileView, canonical: Seq<u8>) -> Option<WalkView> {
    if w.seen.contains(canonical) {
        None
    } else {
        Some(WalkView { chain: w.chain.push(m), seen: w.seen.push(canonical), current: w.current })
    }
}

/// The walk from `start` that visits `ms[i]`, whose canonical path is
/// `canon[i]`, in turn, moving on to `dirs[i]` after each one that has an
/// `extend`: `None` when a visit finds a cycle.
pub open spec fn walk_run(
    start: Seq<u8>,
    ms: Seq<MakefileView>,
    canon: Seq<Seq<u8>>,
    dirs: Seq<Seq<u8>>,
) -> Option<WalkView>
    decreases ms.len(),
{
    if ms.len() == 0 {
        Some(WalkView { chain: Seq::empty(), seen: Seq::empty(), current: start })
    } else {
        let n = ms.len() - 1;
        match walk_run(start, ms.drop_last(), canon, dirs) {
            None => None,
            Some(w) => match visit_view(w, ms[n], canon[n]) {
                None => None,
                Some(v) => if ms[n].extend is Some {
                    Some(WalkView { chain: v.chain, seen: v.seen, current: dirs[n] })
                } else {
                    Some(v)
                },
            },
        }
    }
}

proof fn lemma_walk_run(start: Seq<u8>, ms: Seq<MakefileView>, canon: Seq<Seq<u8>>, dirs: Seq<Seq<u8>>)
    requires
        canon.len() >= ms.len(),
        walk_run(start, ms, canon, dirs) is Some,
    ensures
        walk_run(start, ms, canon, dirs)->0.chain == ms,
        walk_run(start, ms, canon, dirs)->0.seen == canon.take(ms.len() as int),
        walk_run(start, ms, canon, dirs)->0.seen.no_duplicates(),
        ms.len() > 0 ==> walk_run(start, ms, canon, dirs)->0.current == if ms.last().extend is Some {
            dirs[ms.len() - 1]
        } else {
            walk_run(start, ms.drop_last(), canon, dirs)->0.current
        },
    decreases ms.len(),
{
    if ms.len() == 0 {
        assert(canon.take(0) =~= Seq::<Seq<u8>>::empty());
    } else {
        let n = ms.len() - 1;
        lemma_walk_run(start, ms.drop_last(), canon, dirs);
        let w = walk_run(start, ms.drop_last(), canon, dirs)->0;
        assert(w.chain.push(ms[n]) =~= ms);
        assert(w.seen.push(canon[n]) =~= canon.take(ms.len() as int));
        assert(!w.seen.contains(canon[n]));
        assert forall|i: int, j: int|
            0 <= i < j < w.seen.push(canon[n]).len() implies w.seen.push(canon[n])[i] != w.seen.push(
            canon[n],
        )[j] by {
            if j == n {
                assert(w.seen[i] == w.seen.push(canon[n])[i]);
            }
        }
    }
}

/// The whole walk, as the program runs it: it loads the Makefile at the
/// current location (so `ms[0]` is at `start` and each later one in the
/// directory the walk moved to), and goes on while the Makefile it visited
/// has an `extend`. When no visit finds a cycle, the chain that
/// [`ChainWalk::into_chain`] returns holds the Makefiles ancestor first: it
/// starts with the one without `extend`, ends with the Makefile at `start`,
/// each Makefile after the first has an `extend`, and the walk moved from
/// each to the one before it in the chain; no canonical path occurs twice.
pub proof fn law_whole_walk(
    start: Seq<u8>,
    ms: Seq<MakefileView>,
    canon: Seq<Seq<u8>>,
    dirs: Seq<Seq<u8>>,
)
    requires
        ms.len() >= 1,
        canon.len() == ms.len(),
        dirs.len() == ms.len(),
        ms[0].location == start,
        forall|i: int| 1 <= i < ms.len() ==> #[trigger] ms[i].location == dirs[i - 1],
        forall|i: int| 0 <= i < ms.len() - 1 ==> (#[trigger] ms[i]).extend is Some,
        walk_run(start, ms, canon, dirs) is Some,
    ensures
        ({
            let w = walk_run(start, ms, canon, dirs)->0;
            let chain = w.chain.reverse();
            let n = chain.len();
            &&& n == ms.len()
            &&& chain[n - 1].location == start
            &&& w.seen.no_duplicates()
            &&& ms.last().extend is None ==> chain[0].extend is None
            &&& forall|i: int|
                1 <= i < n ==> (#[trigger] chain[i]).extend is Some && chain[i - 1].location
                    == dirs[n - 1 - i]
        }),
{
    lemma_walk_run(start, ms, canon, dirs);
    let w = walk_run(start, ms, canon, dirs)->0;
    let chain = w.chain.reverse();
    let n = chain.len() as int;
    assert forall|i: int| 1 <= i < n implies (#[trigger] chain[i]).extend is Some && chain[i
        - 1].location == dirs[n - 1 - i] by {
        assert(chain[i] == ms[n - 1 - i]);
        assert(chain[i - 1] == ms[n - i]);
    }
}

/// The walk ends: a walk never visits a canonical path twice, so when every
/// Makefile it can reach lies in a finite set of paths, it has visited at
/// most as many Makefiles as that set holds.
pub proof fn law_walk_is_bounded(w: WalkView, reachable: Set<Seq<u8>>)
    requires
        w.seen.no_duplicates(),
        reachable.finite(),
        forall|i: int| 0 <= i < w.seen.len() ==> reachable.contains(#[trigger] w.seen[i]),
    ensures
        w.seen.len() <= reachable.len(),
{
    w.seen.unique_seq_to_set();
    assert(w.seen.to_set().subset_of(reachable)) by {
        assert forall|p: Seq<u8>| w.seen.to_set().contains(p) implies reachable.contains(p) by {
            let i = choose|i: int| 0 <= i < w.seen.len() && w.seen[i] == p;
            assert(reachable.contains(w.seen[i]));
        }
    }
    vstd::set_lib::lemma_len_subset(w.seen.to_set(), reachable);
}

} // verus!
