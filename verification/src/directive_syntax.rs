//! Line-level recognisers for a `Makefile.toml`: section headers, makerz
//! directive comments and bare `KEY =` lines.
//!
//! Each recogniser reads one line (as its chars) and states its answer over
//! positions in that line, the way the scanner slices it.

use vstd::prelude::*;

use crate::text;

verus! {

/// What a line says as a makerz directive comment.
pub enum DirectiveLine {
    /// Not a directive comment at all.
    NotDirective,
    /// `# @makerz = "<value>"`, with the value between the quotes.
    Value(Seq<char>),
    /// Starts like a directive but does not have its shape.
    Malformed,
}

/// The marker that opens a directive comment.
pub open spec fn makerz_marker() -> Seq<char> {
    seq!['@', 'm', 'a', 'k', 'e', 'r', 'z']
}

/// `line[b..]` starts with the directive marker.
pub open spec fn marker_at(line: Seq<char>, b: int) -> bool {
    b + 7 <= line.len() && line.subrange(b, b + 7) == makerz_marker()
}

/// The header name of a `[name]` or `[[name]]` line: after optional leading
/// whitespace, one or two `[`, then everything up to the first `]`, trimmed.
pub open spec fn section_header(line: Seq<char>) -> Option<Seq<char>> {
    let a = text::skip_space(line, 0);
    if a < line.len() && line[a] == '[' {
        let b = if a + 1 < line.len() && line[a + 1] == '[' {
            a + 2
        } else {
            a + 1
        };
        match text::find_from(line, b, ']') {
            Some(e) => Some(text::trim(line.subrange(b, e))),
            None => None,
        }
    } else {
        None
    }
}

/// What follows the marker may end the token: nothing, `=` or whitespace.
pub open spec fn token_boundary(line: Seq<char>, t: int) -> bool {
    t >= line.len() || line[t] == '=' || text::is_space(line[t])
}

/// The quoted value of `<ws>= <ws>"<value>"<ws>[# comment]` starting at `t`.
pub open spec fn directive_tail(line: Seq<char>, t: int) -> Option<Seq<char>> {
    let a = text::skip_space(line, t);
    if !(a < line.len() && line[a] == '=') {
        None
    } else {
        let b = text::skip_space(line, a + 1);
        if !(b < line.len() && line[b] == '"') {
            None
        } else {
            match text::find_from(line, b + 1, '"') {
                None => None,
                Some(e) => {
                    let r = text::skip_space(line, e + 1);
                    if r < line.len() && line[r] != '#' {
                        None
                    } else {
                        Some(line.subrange(b + 1, e))
                    }
                },
            }
        }
    }
}

/// `# @makerz = "<value>"`, with free whitespace around each part.
pub open spec fn directive_comment(line: Seq<char>) -> DirectiveLine {
    let a = text::skip_space(line, 0);
    if !(a < line.len() && line[a] == '#') {
        DirectiveLine::NotDirective
    } else {
        let b = text::skip_space(line, a + 1);
        if !marker_at(line, b) || !token_boundary(line, b + 7) {
            DirectiveLine::NotDirective
        } else {
            match directive_tail(line, b + 7) {
                Some(v) => DirectiveLine::Value(v),
                None => DirectiveLine::Malformed,
            }
        }
    }
}

/// A char allowed in a bare TOML key that the scanner recognises.
pub open spec fn is_key_char(c: char) -> bool {
    c == '_' || text::is_ascii_letter_or_digit(c)
}

/// First index at or after `i` whose char is not a key char.
pub open spec fn key_end(s: Seq<char>, i: int) -> int
    decreases s.len() - i,
{
    if 0 <= i < s.len() && is_key_char(s[i]) {
        key_end(s, i + 1)
    } else {
        i
    }
}

/// The key of a `KEY = ...` line: a run of `[A-Za-z0-9_]` that starts with a
/// letter or `_`, followed (after whitespace) by `=`.
pub open spec fn bare_key(line: Seq<char>) -> Option<Seq<char>> {
    let a = text::skip_space(line, 0);
    if !(a < line.len() && (line[a] == '_' || text::is_ascii_letter(line[a]))) {
        None
    } else {
        let e = key_end(line, a);
        let r = text::skip_space(line, e);
        if r < line.len() && line[r] == '=' {
            Some(line.subrange(a, e))
        } else {
            None
        }
    }
}

/// The name in a `[name]` / `[[name]]` header line.
pub fn match_section_header(line: &Vec<char>) -> (res: Option<String>)
    ensures
        text::opt_view(res) == section_header(line@),
{
    let a = text::skip_whitespace(line, 0);
    if !(a < line.len() && line[a] == '[') {
        return None;
    }
    let b = if a + 1 < line.len() && line[a + 1] == '[' {
        a + 2
    } else {
        a + 1
    };
    match text::find_char(line, b, ']') {
        Some(e) => {
            let inner = text::sub_chars(line, b, e);
            Some(text::trimmed_string(&inner))
        },
        None => None,
    }
}

fn marker_at_exec(line: &Vec<char>, b: usize) -> (res: bool)
    requires
        b <= line.len(),
    ensures
        res == marker_at(line@, b as int),
{
    if line.len() - b < 7 {
        return false;
    }
    let found = line[b] == '@' && line[b + 1] == 'm' && line[b + 2] == 'a' && line[b + 3] == 'k'
        && line[b + 4] == 'e' && line[b + 5] == 'r' && line[b + 6] == 'z';
    proof {
        let sub = line@.subrange(b as int, b + 7);
        if found {
            assert(sub =~= makerz_marker());
        } else {
            if sub == makerz_marker() {
                assert(sub[0] == '@' && sub[1] == 'm' && sub[2] == 'a' && sub[3] == 'k' && sub[4]
                    == 'e' && sub[5] == 'r' && sub[6] == 'z');
            }
        }
    }
    found
}

/// Whether the char after the marker (at `t`) ends the marker token.
pub fn is_directive_token_boundary(line: &Vec<char>, t: usize) -> (res: bool)
    ensures
        res == token_boundary(line@, t as int),
{
    if t >= line.len() {
        true
    } else {
        line[t] == '=' || text::is_whitespace(line[t])
    }
}

/// The quoted value of a directive, read from `t` (just after the marker).
pub fn parse_directive_tail(line: &Vec<char>, t: usize) -> (res: Option<String>)
    requires
        t <= line.len(),
    ensures
        text::opt_view(res) == directive_tail(line@, t as int),
{
    let a = text::skip_whitespace(line, t);
    if !(a < line.len() && line[a] == '=') {
        return None;
    }
    let b = text::skip_whitespace(line, a + 1);
    if !(b < line.len() && line[b] == '"') {
        return None;
    }
    let e = match text::find_char(line, b + 1, '"') {
        Some(e) => e,
        None => return None,
    };
    let r = text::skip_whitespace(line, e + 1);
    if r < line.len() && line[r] != '#' {
        return None;
    }
    Some(text::string_from_chars(line, b + 1, e))
}

/// Classifies a line as a directive comment: `Ok(None)` when it is none,
/// `Ok(Some(value))` for a well-formed one, `Err(())` for a malformed one.
pub fn match_directive_comment(line: &Vec<char>) -> (res: Result<Option<String>, ()>)
    ensures
        match directive_comment(line@) {
            DirectiveLine::NotDirective => res == Ok::<Option<String>, ()>(None),
            DirectiveLine::Value(v) => res matches Ok(Some(s)) && s@ == v,
            DirectiveLine::Malformed => res is Err,
        },
{
    let a = text::skip_whitespace(line, 0);
    if !(a < line.len() && line[a] == '#') {
        return Ok(None);
    }
    let b = text::skip_whitespace(line, a + 1);
    if !marker_at_exec(line, b) {
        return Ok(None);
    }
    if !is_directive_token_boundary(line, b + 7) {
        return Ok(None);
    }
    match parse_directive_tail(line, b + 7) {
        Some(v) => Ok(Some(v)),
        None => Err(()),
    }
}

fn is_key_char_exec(c: char) -> (res: bool)
    ensures
        res == is_key_char(c),
{
    let n = c as u32;
    c == '_' || (0x41 <= n && n <= 0x5a) || (0x61 <= n && n <= 0x7a) || (0x30 <= n && n <= 0x39)
}

/// The key of a bare `KEY = ...` line.
pub fn match_bare_key(line: &Vec<char>) -> (res: Option<String>)
    ensures
        text::opt_view(res) == bare_key(line@),
{
    let a = text::skip_whitespace(line, 0);
    if a >= line.len() {
        return None;
    }
    let first = line[a];
    let n = first as u32;
    if !(first == '_' || (0x41 <= n && n <= 0x5a) || (0x61 <= n && n <= 0x7a)) {
        return None;
    }
    let mut e = a;
    while e < line.len() && is_key_char_exec(line[e])
        invariant
            a <= e <= line.len(),
            key_end(line@, a as int) == key_end(line@, e as int),
        decreases line.len() - e,
    {
        e = e + 1;
    }
    let r = text::skip_whitespace(line, e);
    if r < line.len() && line[r] == '=' {
        Some(text::string_from_chars(line, a, e))
    } else {
        None
    }
}

/// `s[i..j]` is all whitespace.
pub open spec fn all_space(s: Seq<char>, i: int, j: int) -> bool {
    forall|k: int| i <= k < j ==> text::is_space(#[trigger] s[k])
}

/// A bare key as makerz reads one: a letter or `_`, then letters, digits
/// and `_`.
pub open spec fn is_bare_key(name: Seq<char>) -> bool {
    &&& name.len() > 0
    &&& (name[0] == '_' || text::is_ascii_letter(name[0]))
    &&& forall|k: int| 0 <= k < name.len() ==> is_key_char(#[trigger] name[k])
}

/// `line` reads `<ws> name <ws> = ...`, with `name` starting at `p` and the
/// `=` at `r`.
pub open spec fn key_line_at(line: Seq<char>, name: Seq<char>, p: int, r: int) -> bool {
    &&& 0 <= p
    &&& p + name.len() <= r < line.len()
    &&& all_space(line, 0, p)
    &&& line.subrange(p, p + name.len()) == name
    &&& is_bare_key(name)
    &&& all_space(line, p + name.len(), r)
    &&& line[r] == '='
}

proof fn lemma_skip_space_at(s: Seq<char>, i: int, j: int)
    requires
        0 <= i <= j <= s.len(),
        all_space(s, i, j),
        j < s.len() ==> !text::is_space(s[j]),
    ensures
        text::skip_space(s, i) == j,
    decreases j - i,
{
    if i < j {
        assert(text::is_space(s[i]));
        lemma_skip_space_at(s, i + 1, j);
    }
}

proof fn lemma_key_end_bounds(s: Seq<char>, i: int)
    requires
        0 <= i <= s.len(),
    ensures
        i <= key_end(s, i) <= s.len(),
        key_end(s, i) < s.len() ==> !is_key_char(s[key_end(s, i)]),
        forall|k: int| i <= k < key_end(s, i) ==> is_key_char(#[trigger] s[k]),
    decreases s.len() - i,
{
    if i < s.len() && is_key_char(s[i]) {
        lemma_key_end_bounds(s, i + 1);
    }
}

proof fn lemma_key_end_at(s: Seq<char>, i: int, j: int)
    requires
        0 <= i <= j <= s.len(),
        forall|k: int| i <= k < j ==> is_key_char(#[trigger] s[k]),
        j < s.len() ==> !is_key_char(s[j]),
    ensures
        key_end(s, i) == j,
    decreases j - i,
{
    if i < j {
        assert(is_key_char(s[i]));
        lemma_key_end_at(s, i + 1, j);
    }
}

/// A line names the key `name` exactly when, after leading whitespace, it
/// holds `name` (a letter or `_`, then letters, digits and `_`), then
/// whitespace and `=`. As no whitespace or `=` is a key char, `name` is the
/// longest run of key chars there.
pub proof fn law_bare_key_is_key_line(line: Seq<char>, name: Seq<char>)
    ensures
        bare_key(line) == Some(name) <==> exists|p: int, r: int|
            #[trigger] key_line_at(line, name, p, r),
{
    let a = text::skip_space(line, 0);
    text::lemma_skip_space_bounds(line, 0);
    if bare_key(line) == Some(name) {
        let e = key_end(line, a);
        lemma_key_end_bounds(line, a);
        let r = text::skip_space(line, e);
        text::lemma_skip_space_bounds(line, e);
        assert(name == line.subrange(a, e));
        assert(is_key_char(line[a]));
        assert forall|k: int| 0 <= k < name.len() implies is_key_char(#[trigger] name[k]) by {
            assert(name[k] == line[a + k]);
        }
        assert(key_line_at(line, name, a, r));
    }
    if exists|p: int, r: int| #[trigger] key_line_at(line, name, p, r) {
        let (p, r) = choose|p: int, r: int| #[trigger] key_line_at(line, name, p, r);
        let q = p + name.len();
        assert(line[p] == name[0]);
        lemma_skip_space_at(line, 0, p);
        assert forall|k: int| p <= k < q implies is_key_char(#[trigger] line[k]) by {
            assert(line[k] == name[k - p]);
        }
        if q < r {
            assert(text::is_space(line[q]));
        }
        lemma_key_end_at(line, p, q);
        lemma_skip_space_at(line, q, r);
    }
}

proof fn lemma_find_from_at(s: Seq<char>, i: int, j: int, c: char)
    requires
        0 <= i <= j < s.len(),
        s[j] == c,
        forall|k: int| i <= k < j ==> #[trigger] s[k] != c,
    ensures
        text::find_from(s, i, c) == Some(j),
    decreases j - i,
{
    if i < j {
        assert(s[i] != c);
        lemma_find_from_at(s, i + 1, j, c);
    }
}

/// A header line is read up to its first `]`, whatever follows it (a TOML
/// comment, say): after leading whitespace, `[` and a name holding no `]`
/// (and not starting with `[`), `section_header` is that name trimmed; the
/// same holds after `[[` for an array-of-tables header.
pub proof fn law_section_header_up_to_bracket(
    ws: Seq<char>,
    open2: bool,
    name: Seq<char>,
    rest: Seq<char>,
)
    requires
        all_space(ws, 0, ws.len() as int),
        forall|k: int| 0 <= k < name.len() ==> #[trigger] name[k] != ']',
        !open2 ==> (name.len() == 0 || name[0] != '['),
    ensures
        ({
            let open = if open2 {
                seq!['[', '[']
            } else {
                seq!['[']
            };
            section_header(ws + open + name + seq![']'] + rest) == Some(text::trim(name))
        }),
{
    let open = if open2 {
        seq!['[', '[']
    } else {
        seq!['[']
    };
    let line = ws + open + name + seq![']'] + rest;
    let a = ws.len() as int;
    let b = a + open.len();
    let e = b + name.len();
    assert(line[a] == '[');
    assert(!text::is_space('['));
    assert forall|k: int| 0 <= k < a implies text::is_space(#[trigger] line[k]) by {
        assert(line[k] == ws[k]);
    }
    lemma_skip_space_at(line, 0, a);
    if open2 {
        assert(line[a + 1] == '[');
    } else if name.len() > 0 {
        assert(line[a + 1] == name[0]);
    } else {
        assert(line[a + 1] == ']');
    }
    assert(line[e] == ']');
    assert forall|k: int| b <= k < e implies #[trigger] line[k] != ']' by {
        assert(line[k] == name[k - b]);
    }
    lemma_find_from_at(line, b, e, ']');
    assert(line.subrange(b, e) =~= name);
}

/// A directive comment is read with free whitespace around each part, none
/// needed: `<ws>#<ws>@makerz<ws>=<ws>"<value>"<ws>`, optionally followed by
/// a `#` comment, is the directive with that value (holding no `"`), also
/// when nothing separates `#` and `@makerz`.
pub proof fn law_directive_comment_shape(
    ws1: Seq<char>,
    ws2: Seq<char>,
    ws3: Seq<char>,
    ws4: Seq<char>,
    value: Seq<char>,
    ws5: Seq<char>,
    tail: Seq<char>,
)
    requires
        all_space(ws1, 0, ws1.len() as int),
        all_space(ws2, 0, ws2.len() as int),
        all_space(ws3, 0, ws3.len() as int),
        all_space(ws4, 0, ws4.len() as int),
        all_space(ws5, 0, ws5.len() as int),
        forall|k: int| 0 <= k < value.len() ==> #[trigger] value[k] != '"',
        tail.len() == 0 || tail[0] == '#',
    ensures
        directive_comment(
            ws1 + seq!['#'] + ws2 + seq!['@', 'm', 'a', 'k', 'e', 'r', 'z'] + ws3 + seq!['=']
                + ws4 + seq!['"'] + value + seq!['"'] + ws5 + tail,
        ) == DirectiveLine::Value(value),
{
    let marker = seq!['@', 'm', 'a', 'k', 'e', 'r', 'z'];
    let l1 = ws1 + seq!['#'];
    let l2 = l1 + ws2;
    let l3 = l2 + marker;
    let l4 = l3 + ws3;
    let l5 = l4 + seq!['='];
    let l6 = l5 + ws4;
    let l7 = l6 + seq!['"'];
    let l8 = l7 + value;
    let l9 = l8 + seq!['"'];
    let l10 = l9 + ws5;
    let line = l10 + tail;
    let a = ws1.len() as int;
    let b = l2.len() as int;
    let t = l3.len() as int;
    let q = l4.len() as int;
    let v0 = l7.len() as int;
    let e = l8.len() as int;
    let r = l10.len() as int;
    // every prefix is a prefix of the line
    assert forall|k: int| 0 <= k < l10.len() implies #[trigger] line[k] == l10[k] by {}
    assert forall|k: int| 0 <= k < l9.len() implies #[trigger] l10[k] == l9[k] by {}
    assert forall|k: int| 0 <= k < l8.len() implies #[trigger] l9[k] == l8[k] by {}
    assert forall|k: int| 0 <= k < l7.len() implies #[trigger] l8[k] == l7[k] by {}
    assert forall|k: int| 0 <= k < l6.len() implies #[trigger] l7[k] == l6[k] by {}
    assert forall|k: int| 0 <= k < l5.len() implies #[trigger] l6[k] == l5[k] by {}
    assert forall|k: int| 0 <= k < l4.len() implies #[trigger] l5[k] == l4[k] by {}
    assert forall|k: int| 0 <= k < l3.len() implies #[trigger] l4[k] == l3[k] by {}
    assert forall|k: int| 0 <= k < l2.len() implies #[trigger] l3[k] == l2[k] by {}
    assert forall|k: int| 0 <= k < l1.len() implies #[trigger] l2[k] == l1[k] by {}
    // leading whitespace, then `#`
    assert(line[a] == '#');
    assert forall|k: int| 0 <= k < a implies text::is_space(#[trigger] line[k]) by {
        assert(line[k] == ws1[k]);
    }
    assert(!text::is_space('#'));
    lemma_skip_space_at(line, 0, a);
    // whitespace, then the marker
    assert forall|k: int| a + 1 <= k < b implies text::is_space(#[trigger] line[k]) by {
        assert(line[k] == ws2[k - a - 1]);
    }
    assert(line[b] == '@');
    assert(!text::is_space('@'));
    lemma_skip_space_at(line, a + 1, b);
    assert(line.subrange(b, b + 7) =~= makerz_marker()) by {
        assert forall|k: int| 0 <= k < 7 implies #[trigger] line.subrange(b, b + 7)[k]
            == makerz_marker()[k] by {
            assert(line[b + k] == marker[k]);
        }
    }
    // whitespace, then `=`
    assert forall|k: int| t <= k < q implies text::is_space(#[trigger] line[k]) by {
        assert(line[k] == ws3[k - t]);
    }
    assert(line[q] == '=');
    assert(!text::is_space('='));
    if ws3.len() > 0 {
        assert(line[t] == ws3[0]);
        assert(text::is_space(ws3[0]));
    }
    assert(token_boundary(line, t));
    lemma_skip_space_at(line, t, q);
    // whitespace, then the opening quote
    assert forall|k: int| q + 1 <= k < v0 - 1 implies text::is_space(#[trigger] line[k]) by {
        assert(line[k] == ws4[k - q - 1]);
    }
    assert(line[v0 - 1] == '"');
    assert(!text::is_space('"'));
    lemma_skip_space_at(line, q + 1, v0 - 1);
    // the value, then the closing quote
    assert forall|k: int| v0 <= k < e implies #[trigger] line[k] != '"' by {
        assert(line[k] == value[k - v0]);
    }
    assert(line[e] == '"');
    lemma_find_from_at(line, v0, e, '"');
    // whitespace, then the end of the line or a comment
    assert forall|k: int| e + 1 <= k < r implies text::is_space(#[trigger] line[k]) by {
        assert(line[k] == ws5[k - e - 1]);
    }
    if r < line.len() {
        assert(line[r] == tail[0]);
    }
    lemma_skip_space_at(line, e + 1, r);
    assert(line.subrange(v0, e) =~= value) by {
        assert forall|k: int| 0 <= k < value.len() implies #[trigger] line.subrange(v0, e)[k]
            == value[k] by {
            assert(line[v0 + k] == value[k]);
        }
    }
}

proof fn lemma_ws_prefix(ws: Seq<char>, rest: Seq<char>)
    requires
        all_space(ws, 0, ws.len() as int),
        rest.len() == 0 || !text::is_space(rest[0]),
    ensures
        text::skip_space(ws + rest, 0) == ws.len(),
{
    let line = ws + rest;
    assert forall|k: int| 0 <= k < ws.len() implies text::is_space(#[trigger] line[k]) by {
        assert(line[k] == ws[k]);
    }
    if rest.len() > 0 {
        assert(line[ws.len() as int] == rest[0]);
    }
    lemma_skip_space_at(line, 0, ws.len() as int);
}

/// What follows `#` and the whitespace after it on a comment line.
proof fn lemma_after_hash(ws1: Seq<char>, ws2: Seq<char>, rest: Seq<char>)
    requires
        all_space(ws1, 0, ws1.len() as int),
        all_space(ws2, 0, ws2.len() as int),
        rest.len() == 0 || !text::is_space(rest[0]),
    ensures
        ({
            let line = ws1 + seq!['#'] + ws2 + rest;
            let a = ws1.len() as int;
            let b = a + 1 + ws2.len();
            &&& text::skip_space(line, 0) == a
            &&& a < line.len() && line[a] == '#'
            &&& text::skip_space(line, a + 1) == b
            &&& line.skip(b) == rest
            &&& marker_at(line, b) == (rest.len() >= 7 && rest.take(7) == makerz_marker())
        }),
{
    let line = ws1 + seq!['#'] + ws2 + rest;
    let a = ws1.len() as int;
    let b = a + 1 + ws2.len();
    assert(line == ws1 + (seq!['#'] + ws2 + rest));
    assert(!text::is_space('#'));
    lemma_ws_prefix(ws1, seq!['#'] + ws2 + rest);
    assert(line[a] == '#');
    assert forall|k: int| a + 1 <= k < b implies text::is_space(#[trigger] line[k]) by {
        assert(line[k] == ws2[k - a - 1]);
    }
    if rest.len() > 0 {
        assert(line[b] == rest[0]);
    }
    lemma_skip_space_at(line, a + 1, b);
    assert(line.skip(b) =~= rest);
    if b + 7 <= line.len() {
        assert(line.subrange(b, b + 7) =~= rest.take(7));
    }
}

/// A line whose first non-blank char is not `#` is no directive comment.
pub proof fn law_directive_needs_hash(ws: Seq<char>, rest: Seq<char>)
    requires
        all_space(ws, 0, ws.len() as int),
        rest.len() == 0 || (rest[0] != '#' && !text::is_space(rest[0])),
    ensures
        directive_comment(ws + rest) is NotDirective,
{
    lemma_ws_prefix(ws, rest);
    if rest.len() > 0 {
        assert((ws + rest)[ws.len() as int] == rest[0]);
    }
}

/// A comment whose text (after `#` and blanks) is not the word `@makerz`,
/// ended by the end of the line, `=` or whitespace, is an ordinary comment:
/// `# TODO`, `#@makerzz = "caller"` and `# makerz` are no directives.
pub proof fn law_directive_needs_marker_word(ws1: Seq<char>, ws2: Seq<char>, rest: Seq<char>)
    requires
        all_space(ws1, 0, ws1.len() as int),
        all_space(ws2, 0, ws2.len() as int),
        rest.len() == 0 || !text::is_space(rest[0]),
        !(rest.len() >= 7 && rest.take(7) == seq!['@', 'm', 'a', 'k', 'e', 'r', 'z'] && (rest.len()
            == 7 || rest[7] == '=' || text::is_space(rest[7]))),
    ensures
        directive_comment(ws1 + seq!['#'] + ws2 + rest) is NotDirective,
{
    lemma_after_hash(ws1, ws2, rest);
    let line = ws1 + seq!['#'] + ws2 + rest;
    let b = ws1.len() + 1 + ws2.len() as int;
    if b + 7 < line.len() {
        assert(line[b + 7] == rest[7]);
    }
}

/// The directive word followed by anything but `= "<value>"` (with free
/// blanks, then the end of the line or a `#` comment) is malformed: a
/// missing `=`, a value without quotes, an unclosed quote or other text
/// after the closing quote.
pub proof fn law_directive_malformed_tail(
    ws1: Seq<char>,
    ws2: Seq<char>,
    ws3: Seq<char>,
    rest: Seq<char>,
)
    requires
        all_space(ws1, 0, ws1.len() as int),
        all_space(ws2, 0, ws2.len() as int),
        all_space(ws3, 0, ws3.len() as int),
        rest.len() == 0 || !text::is_space(rest[0]),
        ws3.len() > 0 || rest.len() == 0 || rest[0] == '=',
        directive_tail_shape(rest) is None,
    ensures
        directive_comment(
            ws1 + seq!['#'] + ws2 + seq!['@', 'm', 'a', 'k', 'e', 'r', 'z'] + ws3 + rest,
        ) is Malformed,
{
    let marker = seq!['@', 'm', 'a', 'k', 'e', 'r', 'z'];
    let after = marker + ws3 + rest;
    lemma_after_hash(ws1, ws2, after);
    let line = ws1 + seq!['#'] + ws2 + after;
    assert(line == ws1 + seq!['#'] + ws2 + marker + ws3 + rest);
    let b = ws1.len() + 1 + ws2.len() as int;
    assert(after.take(7) =~= marker);
    let t = b + 7;
    if ws3.len() > 0 {
        assert(line[t] == ws3[0]);
    } else if rest.len() > 0 {
        assert(line[t] == rest[0]);
    }
    assert(line.skip(b) == after);
    assert(line.skip(t) =~= ws3 + rest) by {
        assert forall|k: int| 0 <= k < ws3.len() + rest.len() implies #[trigger] line.skip(t)[k]
            == (ws3 + rest)[k] by {
            assert(line.skip(t)[k] == line.skip(b)[7 + k]);
            assert(after[7 + k] == (ws3 + rest)[k]);
        }
    }
    lemma_tail_shape(line, t, ws3, rest);
}

/// The value of `= "<value>"` at the start of `rest`, with free blanks
/// around `=` and after the closing quote, then the end of the text or a
/// `#` comment: the shape a directive takes after its word and blanks.
pub open spec fn directive_tail_shape(rest: Seq<char>) -> Option<Seq<char>> {
    if exists|ws4: Seq<char>, value: Seq<char>, ws5: Seq<char>, tail: Seq<char>|
        #[trigger] tail_parts(rest, ws4, value, ws5, tail) {
        let (ws4, value, ws5, tail) = choose|ws4: Seq<char>, value: Seq<char>, ws5: Seq<char>, tail: Seq<char>|
            #[trigger] tail_parts(rest, ws4, value, ws5, tail);
        Some(value)
    } else {
        None
    }
}

/// `rest` is `=<ws4>"<value>"<ws5><tail>`, `value` holding no `"` and
/// `tail` empty or a `#` comment.
pub open spec fn tail_parts(
    rest: Seq<char>,
    ws4: Seq<char>,
    value: Seq<char>,
    ws5: Seq<char>,
    tail: Seq<char>,
) -> bool {
    &&& rest == seq!['='] + ws4 + seq!['"'] + value + seq!['"'] + ws5 + tail
    &&& all_space(ws4, 0, ws4.len() as int)
    &&& all_space(ws5, 0, ws5.len() as int)
    &&& forall|k: int| 0 <= k < value.len() ==> #[trigger] value[k] != '"'
    &&& (tail.len() == 0 || tail[0] == '#')
}

proof fn lemma_find_from_bounds(s: Seq<char>, i: int, c: char)
    requires
        0 <= i,
    ensures
        text::find_from(s, i, c) matches Some(e) ==> {
            &&& i <= e < s.len()
            &&& s[e] == c
            &&& forall|k: int| i <= k < e ==> #[trigger] s[k] != c
        },
    decreases s.len() - i,
{
    if 0 <= i < s.len() && s[i] != c {
        lemma_find_from_bounds(s, i + 1, c);
    }
}

/// When the directive's tail after its word reads well, the text after the
/// word's blanks has the shape [`directive_tail_shape`] describes.
proof fn lemma_tail_shape(line: Seq<char>, t: int, ws3: Seq<char>, rest: Seq<char>)
    requires
        0 <= t,
        line.len() == t + ws3.len() + rest.len(),
        line.skip(t) == ws3 + rest,
        all_space(ws3, 0, ws3.len() as int),
        rest.len() == 0 || !text::is_space(rest[0]),
    ensures
        directive_tail(line, t) is Some ==> directive_tail_shape(rest) is Some,
{
    let a = t + ws3.len();
    assert forall|k: int| t <= k < a implies text::is_space(#[trigger] line[k]) by {
        assert(line[k] == line.skip(t)[k - t]);
        assert(line.skip(t)[k - t] == ws3[k - t]);
    }
    assert(line.skip(a) =~= rest) by {
        assert forall|k: int| 0 <= k < rest.len() implies #[trigger] line.skip(a)[k] == rest[k] by {
            assert(line[a + k] == line.skip(t)[ws3.len() + k]);
        }
    }
    if rest.len() > 0 {
        assert(line[a] == line.skip(a)[0]);
    }
    lemma_skip_space_at(line, t, a);
    if directive_tail(line, t) is Some {
        let b = text::skip_space(line, a + 1);
        text::lemma_skip_space_bounds(line, a + 1);
        lemma_find_from_bounds(line, b + 1, '"');
        let e = text::find_from(line, b + 1, '"')->0;
        let r = text::skip_space(line, e + 1);
        text::lemma_skip_space_bounds(line, e + 1);
        let ws4 = line.subrange(a + 1, b);
        let value = line.subrange(b + 1, e);
        let ws5 = line.subrange(e + 1, r);
        let tail = line.skip(r);
        assert(rest =~= seq!['='] + ws4 + seq!['"'] + value + seq!['"'] + ws5 + tail) by {
            assert forall|k: int| 0 <= k < rest.len() implies #[trigger] rest[k] == line[a + k] by {
                assert(line.skip(a)[k] == line[a + k]);
            }
        }
        assert forall|k: int| 0 <= k < ws4.len() implies text::is_space(#[trigger] ws4[k]) by {
            assert(ws4[k] == line[a + 1 + k]);
        }
        assert forall|k: int| 0 <= k < value.len() implies #[trigger] value[k] != '"' by {
            assert(value[k] == line[b + 1 + k]);
        }
        assert forall|k: int| 0 <= k < ws5.len() implies text::is_space(#[trigger] ws5[k]) by {
            assert(ws5[k] == line[e + 1 + k]);
        }
        if tail.len() > 0 {
            assert(tail[0] == line[r]);
        }
        assert(tail_parts(rest, ws4, value, ws5, tail));
    }
}

proof fn lemma_find_from_none(s: Seq<char>, i: int, c: char)
    requires
        0 <= i,
        forall|k: int| i <= k < s.len() ==> #[trigger] s[k] != c,
    ensures
        text::find_from(s, i, c) is None,
    decreases s.len() - i,
{
    if i < s.len() {
        lemma_find_from_none(s, i + 1, c);
    }
}

/// Only a line whose first non-blank char is `[`, and that has a `]`
/// after it, is a section header.
pub proof fn law_section_header_needs_brackets(ws: Seq<char>, rest: Seq<char>)
    requires
        all_space(ws, 0, ws.len() as int),
        rest.len() == 0 || !text::is_space(rest[0]),
    ensures
        (rest.len() == 0 || rest[0] != '[') ==> section_header(ws + rest) is None,
        (forall|k: int| 0 <= k < rest.len() ==> #[trigger] rest[k] != ']') ==> section_header(ws + rest) is None,
{
    lemma_ws_prefix(ws, rest);
    let line = ws + rest;
    let a = ws.len() as int;
    if rest.len() > 0 {
        assert(line[a] == rest[0]);
    }
    if forall|k: int| 0 <= k < rest.len() ==> #[trigger] rest[k] != ']' {
        assert forall|k: int| a <= k < line.len() implies #[trigger] line[k] != ']' by {
            assert(line[k] == rest[k - a]);
        }
        lemma_find_from_none(line, a + 1, ']');
        lemma_find_from_none(line, a + 2, ']');
    }
}

} // verus!
