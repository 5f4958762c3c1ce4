//! makerz's own command-line flags.
//!
//! `--version`, `--help`, `--init` and `--extend` are consumed by makerz;
//! every other argument is collected, in order, to be forwarded to `makers`.

use vstd::prelude::*;

use crate::text;

verus! {

/// The version of makerz.
pub const VERSION: &'static str = "0.1.0";

/// Text printed for `makerz --help`.
pub const HELP_TEXT: &'static str = "\
makerz - a thin wrapper around cargo-make (`makers`)

USAGE:
    makerz [makers args...]            Forward args to `makers`
    makerz --init                      Generate a new Makefile.toml
    makerz --init --extend <path>      Generate Makefile.toml extending <path>
    makerz --version                   Print makerz's version
    makerz --help                      Print this help

For cargo-make's own usage, run `makers --help`.
";

/// Result of parsing makerz's own CLI flags.
#[derive(Debug, PartialEq, Eq)]
pub enum Parsed {
    /// `--version`: print makerz's version.
    Version,
    /// `--help`: print makerz's help.
    Help,
    /// `--init [--extend <path>]`: generate a new `Makefile.toml`.
    Init { extend: Option<String> },
    /// Forward `args` to `makers` as-is.
    Passthrough { args: Vec<String> },
}

/// Why makerz's arguments were refused.
#[derive(Debug, PartialEq, Eq)]
pub enum ParseError {
    /// `--extend` without `--init`.
    ExtendWithoutInit,
    /// `--extend` as the last argument.
    ExtendMissingValue,
    /// `--extend` with an empty path.
    ExtendEmptyValue,
    /// `--extend` given more than once.
    ExtendDuplicated,
    /// `--init` together with arguments for `makers`.
    InitWithExtraArgs(Vec<String>),
}

pub enum ParsedView {
    Version,
    Help,
    Init { extend: Option<Seq<char>> },
    Passthrough { args: Seq<Seq<char>> },
}

pub enum ArgFault {
    ExtendWithoutInit,
    ExtendMissingValue,
    ExtendEmptyValue,
    ExtendDuplicated,
    InitWithExtraArgs(Seq<Seq<char>>),
}

pub open spec fn strings_view(v: Seq<String>) -> Seq<Seq<char>> {
    v.map_values(|s: String| s@)
}

impl View for Parsed {
    type V = ParsedView;

    open spec fn view(&self) -> ParsedView {
        match self {
            Parsed::Version => ParsedView::Version,
            Parsed::Help => ParsedView::Help,
            Parsed::Init { extend } => ParsedView::Init { extend: text::opt_view(*extend) },
            Parsed::Passthrough { args } => ParsedView::Passthrough { args: strings_view(args@) },
        }
    }
}

impl View for ParseError {
    type V = ArgFault;

    open spec fn view(&self) -> ArgFault {
        match self {
            ParseError::ExtendWithoutInit => ArgFault::ExtendWithoutInit,
            ParseError::ExtendMissingValue => ArgFault::ExtendMissingValue,
            ParseError::ExtendEmptyValue => ArgFault::ExtendEmptyValue,
            ParseError::ExtendDuplicated => ArgFault::ExtendDuplicated,
            ParseError::InitWithExtraArgs(v) => ArgFault::InitWithExtraArgs(strings_view(v@)),
        }
    }
}

/// What the argument scan has seen so far.
pub struct ScanView {
    pub help: bool,
    pub version: bool,
    pub init: bool,
    pub extend: Option<Seq<char>>,
    pub extend_count: nat,
    pub passthrough: Seq<Seq<char>>,
}

pub open spec fn scan_start() -> ScanView {
    ScanView {
        help: false,
        version: false,
        init: false,
        extend: None,
        extend_count: 0,
        passthrough: Seq::empty(),
    }
}

/// Length of `--extend=`.
pub open spec fn extend_eq_len() -> int {
    9
}

/// `arg` is `--extend=<value>`.
pub open spec fn is_extend_eq(arg: Seq<char>) -> bool {
    extend_eq_len() <= arg.len() && arg.take(extend_eq_len()) == "--extend="@
}

/// Records an `--extend` value; an empty one is refused.
pub open spec fn set_extend(st: ScanView, value: Seq<char>) -> Result<ScanView, ArgFault> {
    if value.len() == 0 {
        Err(ArgFault::ExtendEmptyValue)
    } else {
        Ok(
            ScanView {
                help: st.help,
                version: st.version,
                init: st.init,
                extend: Some(value),
                extend_count: st.extend_count + 1,
                passthrough: st.passthrough,
            },
        )
    }
}

/// The scan of `args[i..]`, from state `st`. `--extend` takes the next
/// argument as its value, whatever it is.
pub open spec fn scan_from(args: Seq<Seq<char>>, i: int, st: ScanView) -> Result<ScanView, ArgFault>
    decreases args.len() - i,
{
    if i < 0 || i >= args.len() {
        Ok(st)
    } else {
        let a = args[i];
        if a == "--help"@ {
            scan_from(
                args,
                i + 1,
                ScanView {
                    help: true,
                    version: st.version,
                    init: st.init,
                    extend: st.extend,
                    extend_count: st.extend_count,
                    passthrough: st.passthrough,
                },
            )
        } else if a == "--version"@ {
            scan_from(
                args,
                i + 1,
                ScanView {
                    help: st.help,
                    version: true,
                    init: st.init,
                    extend: st.extend,
                    extend_count: st.extend_count,
                    passthrough: st.passthrough,
                },
            )
        } else if a == "--init"@ {
            scan_from(
                args,
                i + 1,
                ScanView {
                    help: st.help,
                    version: st.version,
                    init: true,
                    extend: st.extend,
                    extend_count: st.extend_count,
                    passthrough: st.passthrough,
                },
            )
        } else if a == "--extend"@ {
            if i + 1 >= args.len() {
                Err(ArgFault::ExtendMissingValue)
            } else {
                match set_extend(st, args[i + 1]) {
                    Err(f) => Err(f),
                    Ok(next) => scan_from(args, i + 2, next),
                }
            }
        } else if is_extend_eq(a) {
            match set_extend(st, a.skip(extend_eq_len())) {
                Err(f) => Err(f),
                Ok(next) => scan_from(args, i + 1, next),
            }
        } else {
            scan_from(
                args,
                i + 1,
                ScanView {
                    help: st.help,
                    version: st.version,
                    init: st.init,
                    extend: st.extend,
                    extend_count: st.extend_count,
                    passthrough: st.passthrough.push(a),
                },
            )
        }
    }
}

/// What a finished scan means: `--help` wins, then `--version`; then
/// `--extend` must be given at most once and only with `--init`; `--init`
/// takes no other arguments; anything else is passed through.
pub open spec fn classify(st: ScanView) -> Result<ParsedView, ArgFault> {
    if st.help {
        Ok(ParsedView::Help)
    } else if st.version {
        Ok(ParsedView::Version)
    } else if st.extend_count > 1 {
        Err(ArgFault::ExtendDuplicated)
    } else if st.extend is Some && !st.init {
        Err(ArgFault::ExtendWithoutInit)
    } else if st.init {
        if st.passthrough.len() > 0 {
            Err(ArgFault::InitWithExtraArgs(st.passthrough))
        } else {
            Ok(ParsedView::Init { extend: st.extend })
        }
    } else {
        Ok(ParsedView::Passthrough { args: st.passthrough })
    }
}

/// What makerz makes of its arguments.
pub open spec fn parse_args(args: Seq<Seq<char>>) -> Result<ParsedView, ArgFault> {
    match scan_from(args, 0, scan_start()) {
        Err(f) => Err(f),
        Ok(st) => classify(st),
    }
}

pub open spec fn parse_result(r: Result<Parsed, ParseError>) -> Result<ParsedView, ArgFault> {
    match r {
        Ok(p) => Ok(p@),
        Err(e) => Err(e@),
    }
}

struct Scan {
    help: bool,
    version: bool,
    init: bool,
    extend: Option<String>,
    extend_count: usize,
    passthrough: Vec<String>,
}

impl View for Scan {
    type V = ScanView;

    closed spec fn view(&self) -> ScanView {
        ScanView {
            help: self.help,
            version: self.version,
            init: self.init,
            extend: text::opt_view(self.extend),
            extend_count: self.extend_count as nat,
            passthrough: strings_view(self.passthrough@),
        }
    }
}

impl Scan {
    fn set_extend(&mut self, value: String) -> (res: Result<(), ParseError>)
        requires
            old(self).extend_count < usize::MAX,
        ensures
            match set_extend(old(self)@, value@) {
                Ok(st) => res is Ok && final(self)@ == st,
                Err(f) => res matches Err(e) && e@ == f && final(self)@ == old(self)@,
            },
    {
        if value.unicode_len() == 0 {
            return Err(ParseError::ExtendEmptyValue);
        }
        self.extend_count = self.extend_count + 1;
        self.extend = Some(value);
        Ok(())
    }

    fn classify(self) -> (res: Result<Parsed, ParseError>)
        ensures
            parse_result(res) == classify(self@),
    {
        if self.help {
            return Ok(Parsed::Help);
        }
        if self.version {
            return Ok(Parsed::Version);
        }
        if self.extend_count > 1 {
            return Err(ParseError::ExtendDuplicated);
        }
        if self.extend.is_some() && !self.init {
            return Err(ParseError::ExtendWithoutInit);
        }
        if self.init {
            if self.passthrough.len() > 0 {
                return Err(ParseError::InitWithExtraArgs(self.passthrough));
            }
            return Ok(Parsed::Init { extend: self.extend });
        }
        Ok(Parsed::Passthrough { args: self.passthrough })
    }
}

/// Parse makerz's argv tail (program name already stripped), see
/// [`parse_args`].
pub fn parse(args: Vec<String>) -> (res: Result<Parsed, ParseError>)
    ensures
        parse_result(res) == parse_args(strings_view(args@)),
{
    let ghost all = strings_view(args@);
    let mut scan = Scan {
        help: false,
        version: false,
        init: false,
        extend: None,
        extend_count: 0,
        passthrough: Vec::new(),
    };
    assert(scan@.passthrough =~= Seq::<Seq<char>>::empty());
    let mut i: usize = 0;
    while i < args.len()
        invariant
            i <= args.len(),
            all == strings_view(args@),
            scan.extend_count <= i,
            scan_from(all, 0, scan_start()) == scan_from(all, i as int, scan@),
        decreases args.len() - i,
    {
        let arg = &args[i];
        let s = arg.as_str();
        if text::str_equals(s, "--help") {
            scan.help = true;
            i = i + 1;
        } else if text::str_equals(s, "--version") {
            scan.version = true;
            i = i + 1;
        } else if text::str_equals(s, "--init") {
            scan.init = true;
            i = i + 1;
        } else if text::str_equals(s, "--extend") {
            if i + 1 >= args.len() {
                return Err(ParseError::ExtendMissingValue);
            }
            let value = args[i + 1].clone();
            match scan.set_extend(value) {
                Ok(()) => {},
                Err(e) => return Err(e),
            }
            i = i + 2;
        } else if text::str_starts_with(s, "--extend=") {
            proof {
                reveal_strlit("--extend=");
            }
            let n = s.unicode_len();
            let value = String::from_str(s.substring_char(9, n));
            match scan.set_extend(value) {
                Ok(()) => {},
                Err(e) => return Err(e),
            }
            i = i + 1;
        } else {
            let ghost before = scan@;
            scan.passthrough.push(arg.clone());
            assert(scan@.passthrough =~= before.passthrough.push(all[i as int]));
            i = i + 1;
        }
    }
    scan.classify()
}

/// Text printed for `makerz --version`.
pub fn version_text() -> (res: String)
    ensures
        res@ == "makerz "@ + VERSION@ + "\n(for cargo-make's version, run `makers --version`)"@,
{
    let mut text = String::from_str("makerz ");
    text.append(VERSION);
    text.append("\n(for cargo-make's version, run `makers --version`)");
    text
}

/// Text printed for `makerz --help`.
pub fn help_text() -> (res: &'static str)
    ensures
        res@ == HELP_TEXT@,
{
    HELP_TEXT
}

/// One of makerz's own flags, which are never passed through.
pub open spec fn is_makerz_flag(arg: Seq<char>) -> bool {
    ||| arg == "--help"@
    ||| arg == "--version"@
    ||| arg == "--init"@
    ||| arg == "--extend"@
    ||| is_extend_eq(arg)
}

/// `st` with `--help` seen.
pub open spec fn with_help(st: ScanView) -> ScanView {
    ScanView {
        help: true,
        version: st.version,
        init: st.init,
        extend: st.extend,
        extend_count: st.extend_count,
        passthrough: st.passthrough,
    }
}

/// Reading arguments that hold no makerz flag only appends them to the
/// passthrough list.
proof fn lemma_scan_without_flags(args: Seq<Seq<char>>, i: int, st: ScanView)
    requires
        0 <= i <= args.len(),
        forall|k: int| i <= k < args.len() ==> !is_makerz_flag(#[trigger] args[k]),
    ensures
        scan_from(args, i, st) == Ok::<ScanView, ArgFault>(
            ScanView {
                help: st.help,
                version: st.version,
                init: st.init,
                extend: st.extend,
                extend_count: st.extend_count,
                passthrough: st.passthrough + args.skip(i),
            },
        ),
    decreases args.len() - i,
{
    if i == args.len() {
        assert(st.passthrough + args.skip(i) =~= st.passthrough);
    } else {
        let a = args[i];
        assert(!is_makerz_flag(a));
        let next = ScanView {
            help: st.help,
            version: st.version,
            init: st.init,
            extend: st.extend,
            extend_count: st.extend_count,
            passthrough: st.passthrough.push(a),
        };
        lemma_scan_without_flags(args, i + 1, next);
        assert(next.passthrough + args.skip(i + 1) =~= st.passthrough + args.skip(i));
    }
}

/// A scan that ends with no flag recorded read no makerz flag: it passed
/// every remaining argument through.
proof fn lemma_scan_flags_recorded(args: Seq<Seq<char>>, i: int, st: ScanView)
    requires
        0 <= i <= args.len(),
        scan_from(args, i, st) is Ok,
    ensures
        ({
            let fin = scan_from(args, i, st)->Ok_0;
            (!fin.help && !fin.version && !fin.init && fin.extend is None) ==> fin.passthrough
                == st.passthrough + args.skip(i)
        }),
        ({
            let fin = scan_from(args, i, st)->Ok_0;
            &&& st.help ==> fin.help
            &&& st.version ==> fin.version
            &&& st.init ==> fin.init
            &&& st.extend is Some ==> fin.extend is Some
        }),
    decreases args.len() - i,
{
    if i == args.len() {
        assert(st.passthrough + args.skip(i) =~= st.passthrough);
    } else {
        let a = args[i];
        if a == "--help"@ {
            lemma_scan_flags_recorded(args, i + 1, with_help(st));
        } else if a == "--version"@ {
            lemma_scan_flags_recorded(
                args,
                i + 1,
                ScanView {
                    help: st.help,
                    version: true,
                    init: st.init,
                    extend: st.extend,
                    extend_count: st.extend_count,
                    passthrough: st.passthrough,
                },
            );
        } else if a == "--init"@ {
            lemma_scan_flags_recorded(
                args,
                i + 1,
                ScanView {
                    help: st.help,
                    version: st.version,
                    init: true,
                    extend: st.extend,
                    extend_count: st.extend_count,
                    passthrough: st.passthrough,
                },
            );
        } else if a == "--extend"@ {
            let next = set_extend(st, args[i + 1])->Ok_0;
            lemma_scan_flags_recorded(args, i + 2, next);
        } else if is_extend_eq(a) {
            let next = set_extend(st, a.skip(extend_eq_len()))->Ok_0;
            lemma_scan_flags_recorded(args, i + 1, next);
        } else {
            let next = ScanView {
                help: st.help,
                version: st.version,
                init: st.init,
                extend: st.extend,
                extend_count: st.extend_count,
                passthrough: st.passthrough.push(a),
            };
            lemma_scan_flags_recorded(args, i + 1, next);
            assert(next.passthrough + args.skip(i + 1) =~= st.passthrough + args.skip(i));
        }
    }
}

/// Whether the scan fails does not depend on the state it starts from, and
/// a `--help` already seen stays seen.
proof fn lemma_scan_errors_ignore_state(args: Seq<Seq<char>>, i: int, st: ScanView)
    requires
        0 <= i <= args.len(),
    ensures
        scan_from(args, i, st) is Ok <==> scan_from(args, i, with_help(st)) is Ok,
        scan_from(args, i, with_help(st)) matches Ok(fin) ==> fin.help,
    decreases args.len() - i,
{
    if i < args.len() {
        let a = args[i];
        let h = with_help(st);
        if a == "--help"@ {
            assert(with_help(h) == with_help(with_help(st)));
            lemma_scan_errors_ignore_state(args, i + 1, h);
            lemma_scan_errors_ignore_state(args, i + 1, st);
            assert(with_help(with_help(st)) == h);
        } else if a == "--version"@ {
            let st2 = ScanView {
                help: st.help,
                version: true,
                init: st.init,
                extend: st.extend,
                extend_count: st.extend_count,
                passthrough: st.passthrough,
            };
            lemma_scan_errors_ignore_state(args, i + 1, st2);
            assert(with_help(st2) == ScanView {
                help: h.help,
                version: true,
                init: h.init,
                extend: h.extend,
                extend_count: h.extend_count,
                passthrough: h.passthrough,
            });
        } else if a == "--init"@ {
            let st2 = ScanView {
                help: st.help,
                version: st.version,
                init: true,
                extend: st.extend,
                extend_count: st.extend_count,
                passthrough: st.passthrough,
            };
            lemma_scan_errors_ignore_state(args, i + 1, st2);
            assert(with_help(st2) == ScanView {
                help: h.help,
                version: h.version,
                init: true,
                extend: h.extend,
                extend_count: h.extend_count,
                passthrough: h.passthrough,
            });
        } else if a == "--extend"@ {
            if i + 1 < args.len() && args[i + 1].len() > 0 {
                let st2 = set_extend(st, args[i + 1])->Ok_0;
                lemma_scan_errors_ignore_state(args, i + 2, st2);
                assert(with_help(st2) == set_extend(h, args[i + 1])->Ok_0);
            }
        } else if is_extend_eq(a) {
            if a.skip(extend_eq_len()).len() > 0 {
                let st2 = set_extend(st, a.skip(extend_eq_len()))->Ok_0;
                lemma_scan_errors_ignore_state(args, i + 1, st2);
                assert(with_help(st2) == set_extend(h, a.skip(extend_eq_len()))->Ok_0);
            }
        } else {
            let st2 = ScanView {
                help: st.help,
                version: st.version,
                init: st.init,
                extend: st.extend,
                extend_count: st.extend_count,
                passthrough: st.passthrough.push(a),
            };
            lemma_scan_errors_ignore_state(args, i + 1, st2);
            assert(with_help(st2) == ScanView {
                help: h.help,
                version: h.version,
                init: h.init,
                extend: h.extend,
                extend_count: h.extend_count,
                passthrough: h.passthrough.push(a),
            });
        }
    }
}

/// Reading `[a] + rest` from position `i + 1` is reading `rest` from `i`.
proof fn lemma_scan_shift(a: Seq<char>, rest: Seq<Seq<char>>, i: int, st: ScanView)
    requires
        0 <= i <= rest.len(),
    ensures
        scan_from(seq![a] + rest, i + 1, st) == scan_from(rest, i, st),
    decreases rest.len() - i,
{
    let args = seq![a] + rest;
    if i < rest.len() {
        assert(args[i + 1] == rest[i]);
        if i + 1 < rest.len() {
            assert(args[i + 2] == rest[i + 1]);
        }
        let b = rest[i];
        if b == "--help"@ {
            lemma_scan_shift(a, rest, i + 1, with_help(st));
        } else if b == "--version"@ {
            lemma_scan_shift(
                a,
                rest,
                i + 1,
                ScanView {
                    help: st.help,
                    version: true,
                    init: st.init,
                    extend: st.extend,
                    extend_count: st.extend_count,
                    passthrough: st.passthrough,
                },
            );
        } else if b == "--init"@ {
            lemma_scan_shift(
                a,
                rest,
                i + 1,
                ScanView {
                    help: st.help,
                    version: st.version,
                    init: true,
                    extend: st.extend,
                    extend_count: st.extend_count,
                    passthrough: st.passthrough,
                },
            );
        } else if b == "--extend"@ {
            if i + 1 < rest.len() && rest[i + 1].len() > 0 {
                lemma_scan_shift(a, rest, i + 2, set_extend(st, rest[i + 1])->Ok_0);
            }
        } else if is_extend_eq(b) {
            if b.skip(extend_eq_len()).len() > 0 {
                lemma_scan_shift(a, rest, i + 1, set_extend(st, b.skip(extend_eq_len()))->Ok_0);
            }
        } else {
            lemma_scan_shift(
                a,
                rest,
                i + 1,
                ScanView {
                    help: st.help,
                    version: st.version,
                    init: st.init,
                    extend: st.extend,
                    extend_count: st.extend_count,
                    passthrough: st.passthrough.push(b),
                },
            );
        }
    }
}

/// Arguments that hold none of makerz's own flags are forwarded to `makers`
/// unchanged and in order.
pub proof fn law_passthrough_unchanged(args: Seq<Seq<char>>)
    requires
        forall|k: int| 0 <= k < args.len() ==> !is_makerz_flag(#[trigger] args[k]),
    ensures
        parse_args(args) == Ok::<ParsedView, ArgFault>(ParsedView::Passthrough { args }),
{
    lemma_scan_without_flags(args, 0, scan_start());
    assert(scan_start().passthrough + args.skip(0) =~= args);
}

/// Whatever makerz passes through to `makers` is exactly its own argument
/// list: it never passes through part of the arguments.
pub proof fn law_passthrough_is_whole_input(args: Seq<Seq<char>>)
    ensures
        parse_args(args) matches Ok(ParsedView::Passthrough { args: forwarded }) ==> forwarded
            == args,
{
    if scan_from(args, 0, scan_start()) is Ok {
        lemma_scan_flags_recorded(args, 0, scan_start());
        assert(scan_start().passthrough + args.skip(0) =~= args);
    }
}

/// `--help` given first wins over every other argument, unless `--extend`
/// is malformed.
pub proof fn law_help_first_wins(rest: Seq<Seq<char>>)
    requires
        scan_from(rest, 0, scan_start()) is Ok,
    ensures
        parse_args(seq!["--help"@] + rest) == Ok::<ParsedView, ArgFault>(ParsedView::Help),
{
    let args = seq!["--help"@] + rest;
    assert(args[0] == "--help"@);
    lemma_scan_shift("--help"@, rest, 0, with_help(scan_start()));
    lemma_scan_errors_ignore_state(rest, 0, scan_start());
}

/// Once the arguments are scanned, `--help` wins over everything else, and
/// `--version` over everything but `--help`: no `--extend` or `--init`
/// error is reported then.
pub proof fn law_classify_priority(st: ScanView)
    ensures
        st.help ==> classify(st) == Ok::<ParsedView, ArgFault>(ParsedView::Help),
        !st.help && st.version ==> classify(st) == Ok::<ParsedView, ArgFault>(
            ParsedView::Version,
        ),
{
}

/// `arg` begins with `--extend` (`--extend` itself, `--extend=<value>`, or a
/// longer word): the only arguments that take a value or can be refused.
pub open spec fn names_extend(arg: Seq<char>) -> bool {
    arg.len() >= 8 && arg.subrange(0, 8) == "--extend"@
}

proof fn lemma_extend_forms(a: Seq<char>)
    ensures
        a == "--extend"@ ==> names_extend(a),
        is_extend_eq(a) ==> names_extend(a),
{
    reveal_strlit("--extend");
    reveal_strlit("--extend=");
    if a == "--extend"@ {
        assert(a.subrange(0, 8) =~= a);
    }
    if is_extend_eq(a) {
        assert(a.subrange(0, 8) =~= a.take(9).subrange(0, 8));
        assert("--extend="@.subrange(0, 8) =~= "--extend"@);
    }
}

/// `arg` is `--help`, `--version` or `--init`.
pub open spec fn own_flag(arg: Seq<char>) -> bool {
    arg == "--help"@ || arg == "--version"@ || arg == "--init"@
}

/// `w` is one of `args[i..]`.
pub open spec fn occurs_from(args: Seq<Seq<char>>, i: int, w: Seq<char>) -> bool {
    exists|j: int| i <= j < args.len() && #[trigger] args[j] == w
}

proof fn lemma_occurs_step(args: Seq<Seq<char>>, i: int, w: Seq<char>)
    requires
        0 <= i < args.len(),
    ensures
        occurs_from(args, i, w) == (args[i] == w || occurs_from(args, i + 1, w)),
{
    if occurs_from(args, i, w) {
        let j = choose|j: int| i <= j < args.len() && #[trigger] args[j] == w;
        if j > i {
            assert(i + 1 <= j < args.len() && args[j] == w);
        }
    }
    if args[i] == w {
        assert(i <= i < args.len() && args[i] == w);
    }
    if occurs_from(args, i + 1, w) {
        let j = choose|j: int| i + 1 <= j < args.len() && #[trigger] args[j] == w;
        assert(i <= j < args.len() && args[j] == w);
    }
}

proof fn lemma_scan_without_extend(args: Seq<Seq<char>>, i: int, st: ScanView)
    requires
        0 <= i <= args.len(),
        forall|j: int| 0 <= j < args.len() ==> !names_extend(#[trigger] args[j]),
    ensures
        scan_from(args, i, st) matches Ok(r) && {
            &&& r.help == (st.help || occurs_from(args, i, "--help"@))
            &&& r.version == (st.version || occurs_from(args, i, "--version"@))
            &&& r.init == (st.init || occurs_from(args, i, "--init"@))
            &&& r.extend == st.extend
            &&& r.extend_count == st.extend_count
            &&& (r.passthrough.len() == 0) == (st.passthrough.len() == 0 && forall|k: int|
                i <= k < args.len() ==> own_flag(#[trigger] args[k]))
        },
    decreases args.len() - i,
{
    if i < args.len() {
        let a = args[i];
        lemma_extend_forms(a);
        assert(!names_extend(args[i]));
        let next = if a == "--help"@ {
            ScanView { help: true, ..st }
        } else if a == "--version"@ {
            ScanView { version: true, ..st }
        } else if a == "--init"@ {
            ScanView { init: true, ..st }
        } else {
            ScanView { passthrough: st.passthrough.push(a), ..st }
        };
        assert(scan_from(args, i, st) == scan_from(args, i + 1, next));
        lemma_scan_without_extend(args, i + 1, next);
        lemma_occurs_step(args, i, "--help"@);
        lemma_occurs_step(args, i, "--version"@);
        lemma_occurs_step(args, i, "--init"@);
        reveal_strlit("--help");
        reveal_strlit("--version");
        reveal_strlit("--init");
        assert("--help"@[2] != "--init"@[2]);
        let r = scan_from(args, i, st)->Ok_0;
        if r.passthrough.len() == 0 {
            assert forall|k: int| i <= k < args.len() implies own_flag(#[trigger] args[k]) by {
                if k == i {
                    if !own_flag(a) {
                        assert(next.passthrough.len() > 0);
                    }
                }
            }
        }
        if st.passthrough.len() == 0 && forall|k: int| i <= k < args.len() ==> own_flag(#[trigger] args[k]) {
            assert(own_flag(args[i]));
            assert forall|k: int| i + 1 <= k < args.len() implies own_flag(#[trigger] args[k]) by {}
        }
    } else {
        assert(!occurs_from(args, i, "--help"@));
        assert(!occurs_from(args, i, "--version"@));
        assert(!occurs_from(args, i, "--init"@));
    }
}

/// `--help` anywhere among the arguments wins, wherever it stands and
/// whatever comes before or after it, when no `--extend` is given.
pub proof fn law_help_anywhere(args: Seq<Seq<char>>, j: int)
    requires
        0 <= j < args.len(),
        args[j] == "--help"@,
        forall|i: int| 0 <= i < args.len() ==> !names_extend(#[trigger] args[i]),
    ensures
        parse_args(args) == Ok::<ParsedView, ArgFault>(ParsedView::Help),
{
    lemma_scan_without_extend(args, 0, scan_start());
    assert(occurs_from(args, 0, "--help"@)) by {
        assert(0 <= j < args.len() && args[j] == "--help"@);
    }
}

/// `--version` anywhere among the arguments, with no `--help` and no
/// `--extend`, makes makerz print its version: it is never forwarded to
/// `makers`, even after `makers` arguments.
pub proof fn law_version_anywhere(args: Seq<Seq<char>>, j: int)
    requires
        0 <= j < args.len(),
        args[j] == "--version"@,
        forall|i: int| 0 <= i < args.len() ==> !names_extend(#[trigger] args[i]),
        forall|i: int| 0 <= i < args.len() ==> #[trigger] args[i] != "--help"@,
    ensures
        parse_args(args) == Ok::<ParsedView, ArgFault>(ParsedView::Version),
{
    lemma_scan_without_extend(args, 0, scan_start());
    assert(!occurs_from(args, 0, "--help"@));
    assert(occurs_from(args, 0, "--version"@)) by {
        assert(0 <= j < args.len() && args[j] == "--version"@);
    }
}

proof fn lemma_scan_forwards_no_flag(args: Seq<Seq<char>>, i: int, st: ScanView)
    requires
        0 <= i,
        forall|k: int| 0 <= k < st.passthrough.len() ==> !is_makerz_flag(#[trigger] st.passthrough[k]),
    ensures
        scan_from(args, i, st) matches Ok(r) ==> forall|k: int|
            0 <= k < r.passthrough.len() ==> !is_makerz_flag(#[trigger] r.passthrough[k]),
    decreases args.len() - i,
{
    if i < args.len() {
        let a = args[i];
        if a == "--help"@ {
            lemma_scan_forwards_no_flag(args, i + 1, ScanView { help: true, ..st });
        } else if a == "--version"@ {
            lemma_scan_forwards_no_flag(args, i + 1, ScanView { version: true, ..st });
        } else if a == "--init"@ {
            lemma_scan_forwards_no_flag(args, i + 1, ScanView { init: true, ..st });
        } else if a == "--extend"@ {
            if i + 1 < args.len() {
                if let Ok(next) = set_extend(st, args[i + 1]) {
                    lemma_scan_forwards_no_flag(args, i + 2, next);
                }
            }
        } else if is_extend_eq(a) {
            if let Ok(next) = set_extend(st, a.skip(extend_eq_len())) {
                lemma_scan_forwards_no_flag(args, i + 1, next);
            }
        } else {
            let next = ScanView { passthrough: st.passthrough.push(a), ..st };
            assert forall|k: int| 0 <= k < next.passthrough.len() implies !is_makerz_flag(
                #[trigger] next.passthrough[k],
            ) by {
                if k < st.passthrough.len() {
                    assert(next.passthrough[k] == st.passthrough[k]);
                }
            }
            lemma_scan_forwards_no_flag(args, i + 1, next);
        }
    }
}

/// makerz's own flags are never handed to `makers`: a passthrough result
/// holds none of `--help`, `--version`, `--init` or `--extend[=...]`,
/// whatever their position.
pub proof fn law_flags_never_forwarded(args: Seq<Seq<char>>)
    ensures
        parse_args(args) matches Ok(ParsedView::Passthrough { args: p }) ==> forall|k: int|
            0 <= k < p.len() ==> !is_makerz_flag(#[trigger] p[k]),
{
    lemma_scan_forwards_no_flag(args, 0, scan_start());
}

/// `--init` without `--help`, `--version` or `--extend` asks for a new
/// Makefile with no parent when it comes alone (repeated or not), and is
/// refused with the other arguments when any argument is not a flag of
/// makerz.
pub proof fn law_init_alone(args: Seq<Seq<char>>, j: int)
    requires
        0 <= j < args.len(),
        args[j] == "--init"@,
        forall|i: int| 0 <= i < args.len() ==> !names_extend(#[trigger] args[i]),
        forall|i: int| 0 <= i < args.len() ==> #[trigger] args[i] != "--help"@ && args[i] != "--version"@,
    ensures
        (forall|i: int| 0 <= i < args.len() ==> #[trigger] args[i] == "--init"@) ==> parse_args(args)
            == Ok::<ParsedView, ArgFault>(ParsedView::Init { extend: None }),
        (exists|i: int| 0 <= i < args.len() && #[trigger] args[i] != "--init"@) ==> (parse_args(
            args,
        ) matches Err(ArgFault::InitWithExtraArgs(rest)) && rest.len() > 0),
{
    lemma_scan_without_extend(args, 0, scan_start());
    assert(!occurs_from(args, 0, "--help"@));
    assert(!occurs_from(args, 0, "--version"@));
    assert(occurs_from(args, 0, "--init"@)) by {
        assert(0 <= j < args.len() && args[j] == "--init"@);
    }
    if exists|i: int| 0 <= i < args.len() && #[trigger] args[i] != "--init"@ {
        let i = choose|i: int| 0 <= i < args.len() && #[trigger] args[i] != "--init"@;
        assert(!own_flag(args[i]));
    }
}

} // verus!
