//! The command line handed to `makers`, and what its exit means.

use vstd::prelude::*;

use crate::error::Error;
use crate::path::{concat_bytes, copy_bytes, PathBytes};

verus! {

/// Name of the `makers` binary on PATH.
pub const MAKERS_BINARY: &'static str = "makers";

/// The UTF-8 bytes of `s`.
pub open spec fn utf8(s: Seq<char>) -> Seq<u8> {
    vstd::utf8::encode_utf8(s)
}

/// An environment variable to hand to `makers` with `--env`.
#[derive(Debug, PartialEq, Eq)]
pub struct EnvEntry {
    key: String,
    value: Vec<u8>,
}

pub struct EntryView {
    pub key: Seq<char>,
    pub value: Seq<u8>,
}

impl View for EnvEntry {
    type V = EntryView;

    closed spec fn view(&self) -> EntryView {
        EntryView { key: self.key@, value: self.value@ }
    }
}

/// The two arguments that pass one variable: `--env KEY=VALUE`.
pub open spec fn entry_argv(e: EntryView) -> Seq<Seq<u8>> {
    seq![utf8("--env"@), utf8(e.key) + utf8("="@) + e.value]
}

/// The `--env` arguments of `entries`, in order.
pub open spec fn env_argv(entries: Seq<EntryView>) -> Seq<Seq<u8>>
    decreases entries.len(),
{
    if entries.len() == 0 {
        Seq::empty()
    } else {
        env_argv(entries.drop_last()) + entry_argv(entries.last())
    }
}

/// The argv of `makers`: `--cwd <dir>`, the `--env` pairs, then the
/// passthrough arguments unchanged.
pub open spec fn makers_argv(
    dir: Seq<u8>,
    entries: Seq<EntryView>,
    passthrough: Seq<Seq<char>>,
) -> Seq<Seq<u8>> {
    seq![utf8("--cwd"@), dir] + env_argv(entries) + passthrough.map_values(|a: Seq<char>| utf8(a))
}

pub open spec fn args_view(v: Seq<Vec<u8>>) -> Seq<Seq<u8>> {
    v.map_values(|a: Vec<u8>| a@)
}

pub open spec fn entries_view(v: Seq<EnvEntry>) -> Seq<EntryView> {
    v.map_values(|e: EnvEntry| e@)
}

fn str_bytes(s: &str) -> (res: Vec<u8>)
    ensures
        res@ == utf8(s@),
{
    copy_bytes(s.as_bytes())
}

impl EnvEntry {
    /// The variable `key` with the value `value` (as OS string bytes).
    pub fn new(key: String, value: Vec<u8>) -> (res: EnvEntry)
        ensures
            res@ == (EntryView { key: key@, value: value@ }),
    {
        EnvEntry { key, value }
    }

    /// The variable's name.
    pub fn key(&self) -> (res: &str)
        ensures
            res@ == self@.key,
    {
        self.key.as_str()
    }

    /// The variable's value.
    pub fn value(&self) -> (res: &[u8])
        ensures
            res@ == self@.value,
    {
        self.value.as_slice()
    }

    /// `--env KEY=VALUE`.
    pub fn to_argv(&self) -> (res: Vec<Vec<u8>>)
        ensures
            args_view(res@) == entry_argv(self@),
    {
        let flag = str_bytes("--env");
        let key = str_bytes(self.key.as_str());
        let eq = str_bytes("=");
        let key_eq = concat_bytes(key.as_slice(), eq.as_slice());
        let pair = concat_bytes(key_eq.as_slice(), self.value.as_slice());
        let mut res: Vec<Vec<u8>> = Vec::new();
        res.push(flag);
        res.push(pair);
        assert(args_view(res@) =~= entry_argv(self@));
        res
    }
}

/// Build the argv that `makers` should be invoked with, see [`makers_argv`].
pub fn build_args(dir: &PathBytes, env: &[EnvEntry], passthrough: &[String]) -> (res: Vec<Vec<u8>>)
    ensures
        args_view(res@) == makers_argv(
            dir@,
            entries_view(env@),
            passthrough@.map_values(|a: String| a@),
        ),
{
    let ghost entries = entries_view(env@);
    let ghost pass = passthrough@.map_values(|a: String| a@);
    let mut res: Vec<Vec<u8>> = Vec::new();
    res.push(str_bytes("--cwd"));
    res.push(copy_bytes(dir.as_bytes()));
    assert(args_view(res@) =~= seq![utf8("--cwd"@), dir@] + env_argv(entries.take(0)));
    let mut i: usize = 0;
    while i < env.len()
        invariant
            i <= env.len(),
            entries == entries_view(env@),
            args_view(res@) == seq![utf8("--cwd"@), dir@] + env_argv(entries.take(i as int)),
        decreases env.len() - i,
    {
        let pair = env[i].to_argv();
        let ghost before = args_view(res@);
        let mut k: usize = 0;
        while k < pair.len()
            invariant
                k <= pair.len(),
                args_view(res@) == before + args_view(pair@).take(k as int),
            decreases pair.len() - k,
        {
            let item = copy_bytes(pair[k].as_slice());
            let ghost old_res = args_view(res@);
            res.push(item);
            assert(args_view(res@) =~= old_res.push(item@));
            assert(args_view(pair@).take(k + 1) =~= args_view(pair@).take(k as int).push(item@));
            k = k + 1;
        }
        assert(entries.take(i + 1).drop_last() =~= entries.take(i as int));
        assert(args_view(pair@).take(k as int) =~= entry_argv(entries[i as int]));
        assert(args_view(res@) =~= seq![utf8("--cwd"@), dir@] + env_argv(entries.take(i + 1)));
        i = i + 1;
    }
    assert(entries.take(env.len() as int) =~= entries);
    let ghost prefix = args_view(res@);
    let mut j: usize = 0;
    while j < passthrough.len()
        invariant
            j <= passthrough.len(),
            pass == passthrough@.map_values(|a: String| a@),
            args_view(res@) == prefix + pass.take(j as int).map_values(|a: Seq<char>| utf8(a)),
        decreases passthrough.len() - j,
    {
        let item = str_bytes(passthrough[j].as_str());
        let ghost old_res = args_view(res@);
        res.push(item);
        assert(args_view(res@) =~= old_res.push(item@));
        assert(pass.take(j + 1).map_values(|a: Seq<char>| utf8(a)) =~= pass.take(j as int).map_values(
            |a: Seq<char>| utf8(a),
        ).push(item@));
        j = j + 1;
    }
    assert(pass.take(passthrough.len() as int) =~= pass);
    res
}

/// Everything needed to run `makers` once.
#[derive(Debug)]
pub struct Invocation {
    dir: PathBytes,
    env: Vec<EnvEntry>,
    passthrough: Vec<String>,
}

pub struct InvocationView {
    pub dir: Seq<u8>,
    pub env: Seq<EntryView>,
    pub passthrough: Seq<Seq<char>>,
}

impl View for Invocation {
    type V = InvocationView;

    closed spec fn view(&self) -> InvocationView {
        InvocationView {
            dir: self.dir@,
            env: entries_view(self.env@),
            passthrough: self.passthrough@.map_values(|a: String| a@),
        }
    }
}

impl Invocation {
    /// `makers` run in `dir` with `passthrough`, and no extra variables yet.
    pub fn new(dir: PathBytes, passthrough: Vec<String>) -> (res: Invocation)
        ensures
            res@ == (InvocationView {
                dir: dir@,
                env: Seq::empty(),
                passthrough: passthrough@.map_values(|a: String| a@),
            }),
    {
        let res = Invocation { dir, env: Vec::new(), passthrough };
        assert(res@.env =~= Seq::<EntryView>::empty());
        res
    }

    /// Adds a variable, after those already added.
    pub fn push_env(&mut self, entry: EnvEntry)
        ensures
            final(self)@ == (InvocationView {
                dir: old(self)@.dir,
                env: old(self)@.env.push(entry@),
                passthrough: old(self)@.passthrough,
            }),
    {
        let ghost before = self@;
        self.env.push(entry);
        assert(self@.env =~= before.env.push(entry@));
    }

    /// The argv of this run of `makers`.
    pub fn argv(&self) -> (res: Vec<Vec<u8>>)
        ensures
            args_view(res@) == makers_argv(self@.dir, self@.env, self@.passthrough),
    {
        build_args(&self.dir, self.env.as_slice(), self.passthrough.as_slice())
    }
}

/// How a run of `makers` ended.
#[derive(Debug)]
pub enum SpawnOutcome {
    /// The process ran and exited with this code (`None`: killed by a signal).
    Finished { code: Option<i32> },
    /// No `makers` binary was found.
    NotFound,
    /// Spawning failed for another reason.
    Failed(std::io::Error),
}

/// What a run of `makers` means for makerz: success only on exit code 0.
pub fn spawn_result(outcome: SpawnOutcome) -> (res: Result<(), Error>)
    ensures
        match outcome {
            SpawnOutcome::Finished { code: Some(0) } => res is Ok,
            SpawnOutcome::Finished { code: Some(c) } => res matches Err(Error::MakersExited(x))
                && x == c,
            SpawnOutcome::Finished { code: None } => res matches Err(
                Error::MakersTerminatedBySignal,
            ),
            SpawnOutcome::NotFound => res matches Err(Error::MakersNotFound),
            SpawnOutcome::Failed(e) => res matches Err(Error::MakersSpawn(x)) && x == e,
        },
{
    match outcome {
        SpawnOutcome::Finished { code: Some(0) } => Ok(()),
        SpawnOutcome::Finished { code: Some(c) } => Err(Error::MakersExited(c)),
        SpawnOutcome::Finished { code: None } => Err(Error::MakersTerminatedBySignal),
        SpawnOutcome::NotFound => Err(Error::MakersNotFound),
        SpawnOutcome::Failed(e) => Err(Error::MakersSpawn(e)),
    }
}

proof fn lemma_env_argv(entries: Seq<EntryView>)
    ensures
        env_argv(entries).len() == 2 * entries.len(),
        forall|k: int|
            #![trigger entries[k]]
            0 <= k < entries.len() ==> env_argv(entries).subrange(2 * k, 2 * k + 2) == entry_argv(
                entries[k],
            ),
    decreases entries.len(),
{
    if entries.len() > 0 {
        let init = entries.drop_last();
        lemma_env_argv(init);
        let all = env_argv(entries);
        assert(all == env_argv(init) + entry_argv(entries.last()));
        assert forall|k: int|
            #![trigger entries[k]]
            0 <= k < entries.len() implies all.subrange(2 * k, 2 * k + 2) == entry_argv(
                entries[k],
            ) by {
            if k < init.len() {
                assert(entries[k] == init[k]);
                assert(env_argv(init).subrange(2 * k, 2 * k + 2) == entry_argv(init[k]));
                assert(all.subrange(2 * k, 2 * k + 2) =~= env_argv(init).subrange(2 * k, 2 * k + 2));
            } else {
                assert(all.subrange(2 * k, 2 * k + 2) =~= entry_argv(entries.last()));
            }
        }
    }
}

/// The argv handed to `makers` is `--cwd <dir>`, then one `--env KEY=VALUE`
/// pair per variable in order, then the passthrough arguments unchanged.
pub proof fn law_makers_argv_layout(
    dir: Seq<u8>,
    entries: Seq<EntryView>,
    passthrough: Seq<Seq<char>>,
)
    ensures
        ({
            let argv = makers_argv(dir, entries, passthrough);
            let n = 2 + 2 * entries.len();
            &&& argv.len() == n + passthrough.len()
            &&& argv[0] == utf8("--cwd"@)
            &&& argv[1] == dir
            &&& forall|k: int|
                #![trigger entries[k]]
                0 <= k < entries.len() ==> argv.subrange(2 + 2 * k, 4 + 2 * k) == entry_argv(
                    entries[k],
                )
            &&& argv.skip(n as int) == passthrough.map_values(|a: Seq<char>| utf8(a))
        }),
{
    lemma_env_argv(entries);
    let argv = makers_argv(dir, entries, passthrough);
    let env = env_argv(entries);
    let n = 2 + 2 * entries.len();
    let head = seq![utf8("--cwd"@), dir];
    assert(argv == head + env + passthrough.map_values(|a: Seq<char>| utf8(a)));
    assert forall|k: int|
        #![trigger entries[k]]
        0 <= k < entries.len() implies argv.subrange(2 + 2 * k, 4 + 2 * k) == entry_argv(
            entries[k],
        ) by {
        assert(env.subrange(2 * k, 2 * k + 2) == entry_argv(entries[k]));
        assert(argv.subrange(2 + 2 * k, 4 + 2 * k) =~= env.subrange(2 * k, 2 * k + 2));
    }
    assert(argv.skip(n as int) =~= passthrough.map_values(|a: Seq<char>| utf8(a)));
}

/// Each variable reaches `makers` as written: the argument after `--env`
/// is the key, one `=` byte, then the value's bytes unchanged (no quoting
/// or escaping), so it splits at the first `=` after the key into the key
/// and the value.
pub proof fn law_env_value_verbatim(
    dir: Seq<u8>,
    entries: Seq<EntryView>,
    passthrough: Seq<Seq<char>>,
    k: int,
)
    requires
        0 <= k < entries.len(),
    ensures
        ({
            let argv = makers_argv(dir, entries, passthrough);
            let arg = argv[3 + 2 * k];
            let key = utf8(entries[k].key);
            &&& argv[2 + 2 * k] == utf8("--env"@)
            &&& arg.len() == key.len() + 1 + entries[k].value.len()
            &&& arg.subrange(0, key.len() as int) == key
            &&& arg[key.len() as int] == 0x3du8
            &&& arg.skip(key.len() + 1int) == entries[k].value
        }),
{
    law_makers_argv_layout(dir, entries, passthrough);
    let argv = makers_argv(dir, entries, passthrough);
    let e = entries[k];
    assert(argv.subrange(2 + 2 * k, 4 + 2 * k) == entry_argv(e));
    assert(argv[2 + 2 * k] == argv.subrange(2 + 2 * k, 4 + 2 * k)[0]);
    assert(argv[3 + 2 * k] == argv.subrange(2 + 2 * k, 4 + 2 * k)[1]);
    let key = utf8(e.key);
    let eq = utf8("="@);
    reveal_strlit("=");
    assert(vstd::utf8::is_ascii_chars("="@));
    vstd::utf8::is_ascii_chars_encode_utf8("="@);
    assert(eq.len() == 1);
    assert(eq[0] == 0x3du8);
    let arg = key + eq + e.value;
    assert(arg.subrange(0, key.len() as int) =~= key);
    assert(arg.skip(key.len() + 1int) =~= e.value);
}

/// [`EnvEntry::to_argv`] renders `--env` and then the key, one `=` byte
/// and the value's bytes unchanged.
pub proof fn law_entry_argv_verbatim(e: EntryView)
    ensures
        entry_argv(e).len() == 2,
        entry_argv(e)[0] == utf8("--env"@),
        entry_argv(e)[1].len() == utf8(e.key).len() + 1 + e.value.len(),
        entry_argv(e)[1].subrange(0, utf8(e.key).len() as int) == utf8(e.key),
        entry_argv(e)[1][utf8(e.key).len() as int] == 0x3du8,
        entry_argv(e)[1].skip(utf8(e.key).len() + 1int) == e.value,
{
    let entries = seq![e];
    law_env_value_verbatim(Seq::empty(), entries, Seq::empty(), 0);
    law_makers_argv_layout(Seq::empty(), entries, Seq::empty());
    let argv = makers_argv(Seq::empty(), entries, Seq::empty());
    assert(argv.subrange(2, 4) == entry_argv(entries[0]));
    assert(entry_argv(e)[1] == argv.subrange(2, 4)[1]);
    assert(entry_argv(e)[0] == argv.subrange(2, 4)[0]);
}

} // verus!
