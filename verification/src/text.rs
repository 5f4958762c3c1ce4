//! Character-level helpers shared by the line scanners.

use vstd::prelude::*;

verus! {

/// Whether `c` carries the Unicode `White_Space` property, which is what
/// `char::is_whitespace` tests.
pub open spec fn is_space(c: char) -> bool {
    let n = c as u32;
    ||| 0x09 <= n <= 0x0d
    ||| n == 0x20
    ||| n == 0x85
    ||| n == 0xa0
    ||| n == 0x1680
    ||| 0x2000 <= n <= 0x200a
    ||| n == 0x2028
    ||| n == 0x2029
    ||| n == 0x202f
    ||| n == 0x205f
    ||| n == 0x3000
}

/// Executable form of [`is_space`].
pub fn is_whitespace(c: char) -> (res: bool)
    ensures
        res == is_space(c),
{
    let n = c as u32;
    (0x09 <= n && n <= 0x0d) || n == 0x20 || n == 0x85 || n == 0xa0 || n == 0x1680 || (0x2000
        <= n && n <= 0x200a) || n == 0x2028 || n == 0x2029 || n == 0x202f || n == 0x205f || n
        == 0x3000
}

/// Index of the first char at or after `i` that is not whitespace
/// (`s.len()` when there is none).
pub open spec fn skip_space(s: Seq<char>, i: int) -> int
    decreases s.len() - i,
{
    if 0 <= i < s.len() && is_space(s[i]) {
        skip_space(s, i + 1)
    } else {
        i
    }
}

/// `s` without its leading whitespace, as `str::trim_start` gives it.
pub open spec fn trim_start(s: Seq<char>) -> Seq<char> {
    s.skip(skip_space(s, 0))
}

/// Largest `j' <= j` such that `s[j' - 1]` is not whitespace (or 0).
pub open spec fn strip_space_end(s: Seq<char>, j: int) -> int
    decreases j,
{
    if 0 < j <= s.len() && is_space(s[j - 1]) {
        strip_space_end(s, j - 1)
    } else {
        j
    }
}

pub proof fn lemma_skip_space_bounds(s: Seq<char>, i: int)
    requires
        0 <= i <= s.len(),
    ensures
        i <= skip_space(s, i) <= s.len(),
        skip_space(s, i) < s.len() ==> !is_space(s[skip_space(s, i)]),
        forall|k: int| i <= k < skip_space(s, i) ==> is_space(#[trigger] s[k]),
    decreases s.len() - i,
{
    if i < s.len() && is_space(s[i]) {
        lemma_skip_space_bounds(s, i + 1);
    }
}

/// Index of the first char at or after `i` that is not whitespace.
pub fn skip_whitespace(s: &Vec<char>, i: usize) -> (res: usize)
    requires
        i <= s.len(),
    ensures
        res == skip_space(s@, i as int),
        i <= res <= s.len(),
{
    let mut j = i;
    while j < s.len() && is_whitespace(s[j])
        invariant
            i <= j <= s.len(),
            skip_space(s@, i as int) == skip_space(s@, j as int),
        decreases s.len() - j,
    {
        j = j + 1;
    }
    j
}

/// Largest `j' <= j` such that `s[j' - 1]` is not whitespace.
pub fn strip_whitespace_end(s: &Vec<char>, j: usize) -> (res: usize)
    requires
        j <= s.len(),
    ensures
        res == strip_space_end(s@, j as int),
        res <= j,
{
    let mut k = j;
    while k > 0 && is_whitespace(s[k - 1])
        invariant
            k <= j <= s.len(),
            strip_space_end(s@, j as int) == strip_space_end(s@, k as int),
        decreases k,
    {
        k = k - 1;
    }
    k
}

/// The chars of `s`, in order.
pub fn str_chars(s: &str) -> (res: Vec<char>)
    ensures
        res@ == s@,
{
    let mut out: Vec<char> = Vec::new();
    for c in it: s.chars()
        invariant
            out@ == it.seq().take(it.index() as int),
    {
        out.push(c);
    }
    out
}

} // verus!

verus! {

/// First index `k >= i` with `s[k] == c`, if any.
pub open spec fn find_from(s: Seq<char>, i: int, c: char) -> Option<int>
    decreases s.len() - i,
{
    if 0 <= i < s.len() {
        if s[i] == c {
            Some(i)
        } else {
            find_from(s, i + 1, c)
        }
    } else {
        None
    }
}

/// Position of the first `c` at or after `i`.
pub fn find_char(s: &Vec<char>, i: usize, c: char) -> (res: Option<usize>)
    requires
        i <= s.len(),
    ensures
        match res {
            Some(k) => find_from(s@, i as int, c) == Some(k as int) && i <= k < s.len(),
            None => find_from(s@, i as int, c) is None,
        },
{
    let mut k = i;
    while k < s.len()
        invariant
            i <= k <= s.len(),
            find_from(s@, i as int, c) == find_from(s@, k as int, c),
        decreases s.len() - k,
    {
        if s[k] == c {
            return Some(k);
        }
        k = k + 1;
    }
    None
}

/// `s` without leading and trailing whitespace, as `str::trim` gives it.
pub open spec fn trim(s: Seq<char>) -> Seq<char> {
    let a = skip_space(s, 0);
    let z = strip_space_end(s, s.len() as int);
    if z < a {
        Seq::empty()
    } else {
        s.subrange(a, z)
    }
}

/// `String::push`: appends `c`.
#[verifier::external_body]
fn push_char(s: &mut String, c: char)
    ensures
        final(s)@ == old(s)@.push(c),
{
    s.push(c);
}

/// The `String` made of `chars[from..to]`.
pub fn string_from_chars(chars: &Vec<char>, from: usize, to: usize) -> (res: String)
    requires
        from <= to <= chars.len(),
    ensures
        res@ == chars@.subrange(from as int, to as int),
{
    let mut out = String::new();
    let mut k = from;
    while k < to
        invariant
            from <= k <= to <= chars.len(),
            out@ == chars@.subrange(from as int, k as int),
        decreases to - k,
    {
        push_char(&mut out, chars[k]);
        k = k + 1;
        assert(out@ =~= chars@.subrange(from as int, k as int));
    }
    out
}

/// A new vector holding `s[from..to]`.
pub fn sub_chars(s: &Vec<char>, from: usize, to: usize) -> (res: Vec<char>)
    requires
        from <= to <= s.len(),
    ensures
        res@ == s@.subrange(from as int, to as int),
{
    let mut out: Vec<char> = Vec::new();
    let mut k = from;
    while k < to
        invariant
            from <= k <= to <= s.len(),
            out@ == s@.subrange(from as int, k as int),
        decreases to - k,
    {
        out.push(s[k]);
        k = k + 1;
    }
    out
}

/// `str::trim` over a whole char vector, as a `String`.
pub fn trimmed_string(s: &Vec<char>) -> (res: String)
    ensures
        res@ == trim(s@),
{
    let a = skip_whitespace(s, 0);
    let z = strip_whitespace_end(s, s.len());
    if z < a {
        String::new()
    } else {
        string_from_chars(s, a, z)
    }
}

} // verus!

verus! {

/// The view of an optional `String`.
pub open spec fn opt_view(o: Option<String>) -> Option<Seq<char>> {
    match o {
        Some(s) => Some(s@),
        None => None,
    }
}

/// `char::is_ascii_alphabetic`.
pub open spec fn is_ascii_letter(c: char) -> bool {
    let n = c as u32;
    (0x41 <= n <= 0x5a) || (0x61 <= n <= 0x7a)
}

/// `char::is_ascii_alphanumeric`.
pub open spec fn is_ascii_letter_or_digit(c: char) -> bool {
    let n = c as u32;
    is_ascii_letter(c) || (0x30 <= n <= 0x39)
}

} // verus!

verus! {

/// `l` without one trailing `'\r'`.
pub open spec fn strip_cr(l: Seq<char>) -> Seq<char> {
    if l.len() > 0 && l.last() == '\r' {
        l.drop_last()
    } else {
        l
    }
}

/// Lines completed so far and the line in progress, after reading `s`.
pub open spec fn line_state(s: Seq<char>) -> (Seq<Seq<char>>, Seq<char>)
    decreases s.len(),
{
    if s.len() == 0 {
        (Seq::empty(), Seq::empty())
    } else {
        let (done, cur) = line_state(s.drop_last());
        if s.last() == '\n' {
            (done.push(strip_cr(cur)), Seq::empty())
        } else {
            (done, cur.push(s.last()))
        }
    }
}

/// The lines of `s` as `str::lines` yields them: split at `'\n'`, a `'\r'`
/// before the `'\n'` dropped, and no empty line after a final line ending.
pub open spec fn lines(s: Seq<char>) -> Seq<Seq<char>> {
    let (done, cur) = line_state(s);
    if cur.len() == 0 {
        done
    } else {
        done.push(cur)
    }
}

/// The views of a sequence of char vectors.
pub open spec fn char_lines(v: Seq<Vec<char>>) -> Seq<Seq<char>> {
    v.map_values(|l: Vec<char>| l@)
}

/// Splits `s` into its lines.
pub fn split_lines(s: &Vec<char>) -> (res: Vec<Vec<char>>)
    ensures
        char_lines(res@) == lines(s@),
{
    let mut done: Vec<Vec<char>> = Vec::new();
    let mut cur: Vec<char> = Vec::new();
    let mut i: usize = 0;
    while i < s.len()
        invariant
            i <= s.len(),
            (char_lines(done@), cur@) == line_state(s@.take(i as int)),
        decreases s.len() - i,
    {
        let c = s[i];
        assert(s@.take(i + 1).drop_last() =~= s@.take(i as int));
        assert(s@.take(i + 1).last() == c);
        if c == '\n' {
            let ghost old_done = char_lines(done@);
            let ghost old_cur = cur@;
            if cur.len() > 0 && cur[cur.len() - 1] == '\r' {
                cur.pop();
            }
            assert(cur@ =~= strip_cr(old_cur));
            done.push(cur);
            cur = Vec::new();
            assert(char_lines(done@) =~= old_done.push(strip_cr(old_cur)));
        } else {
            cur.push(c);
        }
        i = i + 1;
    }
    assert(s@.take(s.len() as int) =~= s@);
    if cur.len() > 0 {
        let ghost old_done = char_lines(done@);
        let ghost old_cur = cur@;
        done.push(cur);
        assert(char_lines(done@) =~= old_done.push(old_cur));
    }
    done
}

} // verus!

verus! {

/// Whether `a` and `b` hold the same chars.
pub fn str_equals(a: &str, b: &str) -> (res: bool)
    ensures
        res == (a@ == b@),
{
    let n = a.unicode_len();
    if n != b.unicode_len() {
        return false;
    }
    let mut i: usize = 0;
    while i < n
        invariant
            i <= n,
            n == a@.len(),
            n == b@.len(),
            forall|j: int| 0 <= j < i ==> a@[j] == b@[j],
        decreases n - i,
    {
        if a.get_char(i) != b.get_char(i) {
            return false;
        }
        i = i + 1;
    }
    assert(a@ =~= b@);
    true
}

} // verus!

verus! {

/// Whether `s` starts with `prefix`.
pub fn str_starts_with(s: &str, prefix: &str) -> (res: bool)
    ensures
        res == (prefix@.len() <= s@.len() && s@.take(prefix@.len() as int) == prefix@),
{
    let n = prefix.unicode_len();
    if n > s.unicode_len() {
        return false;
    }
    let mut i: usize = 0;
    while i < n
        invariant
            i <= n,
            n == prefix@.len(),
            n <= s@.len(),
            forall|j: int| 0 <= j < i ==> s@[j] == prefix@[j],
        decreases n - i,
    {
        if s.get_char(i) != prefix.get_char(i) {
            assert(s@.take(n as int)[i as int] != prefix@[i as int]);
            return false;
        }
        i = i + 1;
    }
    assert(s@.take(n as int) =~= prefix@);
    true
}

} // verus!
