//! Filesystem paths as the bytes the operating system sees (Unix `OsStr`
//! encoding), so that the library can state what it does with them.

use vstd::prelude::*;

verus! {

/// The byte `/`, the Unix path separator.
pub open spec fn separator() -> u8 {
    0x2f
}

/// `base.join(rel)` as `PathBuf::push` defines it on Unix: an absolute `rel`
/// replaces `base`; otherwise `rel` is appended, with a separator in between
/// unless `base` is empty or already ends in one.
pub open spec fn join_bytes(base: Seq<u8>, rel: Seq<u8>) -> Seq<u8> {
    if rel.len() > 0 && rel[0] == separator() {
        rel
    } else if base.len() > 0 && base.last() != separator() {
        base + seq![separator()] + rel
    } else {
        base + rel
    }
}

/// A filesystem path, held as its bytes.
#[derive(Debug, PartialEq, Eq, Clone)]
pub struct PathBytes {
    bytes: Vec<u8>,
}

impl View for PathBytes {
    type V = Seq<u8>;

    closed spec fn view(&self) -> Seq<u8> {
        self.bytes@
    }
}

/// A fresh vector holding `s`.
pub fn copy_bytes(s: &[u8]) -> (res: Vec<u8>)
    ensures
        res@ == s@,
{
    let mut out: Vec<u8> = Vec::new();
    let mut i: usize = 0;
    while i < s.len()
        invariant
            i <= s.len(),
            out@ == s@.take(i as int),
        decreases s.len() - i,
    {
        out.push(s[i]);
        i = i + 1;
        assert(out@ =~= s@.take(i as int));
    }
    assert(s@.take(s.len() as int) =~= s@);
    out
}

/// `a` followed by `b`, in a fresh vector.
pub fn concat_bytes(a: &[u8], b: &[u8]) -> (res: Vec<u8>)
    ensures
        res@ == a@ + b@,
{
    let mut out = copy_bytes(a);
    let mut i: usize = 0;
    while i < b.len()
        invariant
            i <= b.len(),
            out@ == a@ + b@.take(i as int),
        decreases b.len() - i,
    {
        out.push(b[i]);
        i = i + 1;
        assert(out@ =~= a@ + b@.take(i as int));
    }
    assert(b@.take(b.len() as int) =~= b@);
    out
}

impl PathBytes {
    /// The path with exactly these bytes.
    pub fn new(bytes: Vec<u8>) -> (res: PathBytes)
        ensures
            res@ == bytes@,
    {
        PathBytes { bytes }
    }

    /// The path spelled by `s` (its UTF-8 bytes).
    pub fn from_str(s: &str) -> (res: PathBytes)
        ensures
            res@ == vstd::utf8::encode_utf8(s@),
    {
        PathBytes { bytes: copy_bytes(s.as_bytes()) }
    }

    /// The bytes of the path.
    pub fn as_bytes(&self) -> (res: &[u8])
        ensures
            res@ == self@,
    {
        self.bytes.as_slice()
    }

    /// A copy of this path.
    pub fn duplicate(&self) -> (res: PathBytes)
        ensures
            res@ == self@,
    {
        PathBytes { bytes: copy_bytes(self.bytes.as_slice()) }
    }

    /// `self.join(rel)`, see [`join_bytes`].
    pub fn join(&self, rel: &[u8]) -> (res: PathBytes)
        ensures
            res@ == join_bytes(self@, rel@),
    {
        if rel.len() > 0 && rel[0] == 0x2f {
            return PathBytes { bytes: copy_bytes(rel) };
        }
        let n = self.bytes.len();
        if n > 0 && self.bytes[n - 1] != 0x2f {
            let mut with_sep = copy_bytes(self.bytes.as_slice());
            with_sep.push(0x2f);
            let joined = concat_bytes(with_sep.as_slice(), rel);
            PathBytes { bytes: joined }
        } else {
            PathBytes { bytes: concat_bytes(self.bytes.as_slice(), rel) }
        }
    }
}

} // verus!
