//! Parse a single `Makefile.toml` into structured directive info.
//!
//! Reading happens in two passes over the text: a line scan that finds the
//! `[env]` keys and the makerz directives bound to them ([`scan_env`]), then
//! an assembly step that looks up each key's fallback value in the parsed
//! TOML document and checks that `file` and `caller` are bound at most once
//! ([`assemble_env`]). Errors come out in the order of the lines that cause
//! them, as a single line-by-line pass would report them.

use vstd::prelude::*;

use toml_edit::{DocumentMut, TomlError};

use crate::directive_syntax::{
    match_bare_key, match_directive_comment, match_section_header, DirectiveLine,
};
use crate::location::MakefileLocation;
use crate::path::PathBytes;
use crate::text;
use crate::toml::{self, ItemKind};

verus! {

/// Why a `Makefile.toml` could not be parsed.
#[derive(Debug)]
pub enum ParseMakefileError {
    Read { path: PathBytes, source: std::io::Error },
    TomlParse(TomlError),
    ExtendNotString { kind: &'static str },
    /// `extend = ["..."]`: a list of one parent.
    ExtendMultiParent,
    /// `extend = { path = "...", relative = ... }`, with the text of
    /// `relative` when it is a string.
    ExtendRelative { value: Option<String> },
    /// `extend = { path = "...", optional = ... }`.
    ExtendOptional,
    DirectiveOutsideEnv { value: String },
    DirectiveUnbound { value: String },
    DirectiveOnSameVar { name: String },
    DuplicateFile { previous: String, new: String },
    DuplicateCaller { previous: String, new: String },
    DirectiveUnknownValue { value: String },
    FallbackNotString { name: String },
    DirectiveMalformed { line: String },
}

/// [`ParseMakefileError`] with its text as chars and its outside parts left out.
pub enum ParseFault {
    Read { path: Seq<u8> },
    TomlParse,
    ExtendNotString { kind: Seq<char> },
    ExtendMultiParent,
    ExtendRelative { value: Option<Seq<char>> },
    ExtendOptional,
    DirectiveOutsideEnv { value: Seq<char> },
    DirectiveUnbound { value: Seq<char> },
    DirectiveOnSameVar { name: Seq<char> },
    DuplicateFile { previous: Seq<char>, new: Seq<char> },
    DuplicateCaller { previous: Seq<char>, new: Seq<char> },
    DirectiveUnknownValue { value: Seq<char> },
    FallbackNotString { name: Seq<char> },
    DirectiveMalformed { line: Seq<char> },
}

impl View for ParseMakefileError {
    type V = ParseFault;

    open spec fn view(&self) -> ParseFault {
        match self {
            ParseMakefileError::Read { path, .. } => ParseFault::Read { path: path@ },
            ParseMakefileError::TomlParse(_) => ParseFault::TomlParse,
            ParseMakefileError::ExtendNotString { kind } => ParseFault::ExtendNotString {
                kind: kind@,
            },
            ParseMakefileError::ExtendMultiParent => ParseFault::ExtendMultiParent,
            ParseMakefileError::ExtendRelative { value } => ParseFault::ExtendRelative {
                value: text::opt_view(*value),
            },
            ParseMakefileError::ExtendOptional => ParseFault::ExtendOptional,
            ParseMakefileError::DirectiveOutsideEnv { value } => ParseFault::DirectiveOutsideEnv {
                value: value@,
            },
            ParseMakefileError::DirectiveUnbound { value } => ParseFault::DirectiveUnbound {
                value: value@,
            },
            ParseMakefileError::DirectiveOnSameVar { name } => ParseFault::DirectiveOnSameVar {
                name: name@,
            },
            ParseMakefileError::DuplicateFile { previous, new } => ParseFault::DuplicateFile {
                previous: previous@,
                new: new@,
            },
            ParseMakefileError::DuplicateCaller { previous, new } => ParseFault::DuplicateCaller {
                previous: previous@,
                new: new@,
            },
            ParseMakefileError::DirectiveUnknownValue {
                value,
            } => ParseFault::DirectiveUnknownValue { value: value@ },
            ParseMakefileError::FallbackNotString { name } => ParseFault::FallbackNotString {
                name: name@,
            },
            ParseMakefileError::DirectiveMalformed { line } => ParseFault::DirectiveMalformed {
                line: line@,
            },
        }
    }
}

/// The three makerz directives.
#[derive(Debug, Clone, Copy, PartialEq, Eq)]
pub enum Directive {
    File,
    Inherit,
    Caller,
}

/// The directive a directive value names.
pub open spec fn directive_named(v: Seq<char>) -> Option<Directive> {
    if v == "file"@ {
        Some(Directive::File)
    } else if v == "inherit"@ {
        Some(Directive::Inherit)
    } else if v == "caller"@ {
        Some(Directive::Caller)
    } else {
        None
    }
}

fn directive_of(v: &String) -> (res: Option<Directive>)
    ensures
        res == directive_named(v@),
{
    if text::str_equals(v.as_str(), "file") {
        Some(Directive::File)
    } else if text::str_equals(v.as_str(), "inherit") {
        Some(Directive::Inherit)
    } else if text::str_equals(v.as_str(), "caller") {
        Some(Directive::Caller)
    } else {
        None
    }
}

/// A key line of an `[env]` section, as the line scan reports it.
#[derive(Debug)]
pub enum EnvEvent {
    /// A key with no directive above it.
    Plain(String),
    /// A key with exactly one directive above it.
    Bound(Directive, String),
}

pub enum EnvEventView {
    Plain(Seq<char>),
    Bound(Directive, Seq<char>),
}

impl View for EnvEvent {
    type V = EnvEventView;

    open spec fn view(&self) -> EnvEventView {
        match self {
            EnvEvent::Plain(k) => EnvEventView::Plain(k@),
            EnvEvent::Bound(d, k) => EnvEventView::Bound(*d, k@),
        }
    }
}

/// The key named by an event.
pub open spec fn event_key(e: EnvEventView) -> Seq<char> {
    match e {
        EnvEventView::Plain(k) => k,
        EnvEventView::Bound(_, k) => k,
    }
}

impl EnvEvent {
    /// The key this line names.
    pub fn key(&self) -> (res: &String)
        ensures
            res@ == event_key(self@),
    {
        match self {
            EnvEvent::Plain(k) => k,
            EnvEvent::Bound(_, k) => k,
        }
    }
}

/// What the line scan found: the `[env]` key lines in order, up to the line
/// that stopped the scan, and the error that stopped it, if any.
#[derive(Debug)]
pub struct EnvOutline {
    pub events: Vec<EnvEvent>,
    pub stop: Option<ParseMakefileError>,
}

pub open spec fn events_view(events: Seq<EnvEvent>) -> Seq<EnvEventView> {
    events.map_values(|e: EnvEvent| e@)
}

pub open spec fn opt_fault(stop: Option<ParseMakefileError>) -> Option<ParseFault> {
    match stop {
        Some(e) => Some(e@),
        None => None,
    }
}

/// The state of the line scan.
pub struct ScanView {
    /// The current section is `[env]`.
    pub in_env: bool,
    /// Directives read since the last key line, with their raw values.
    pub pending: Seq<(Directive, Seq<char>)>,
    /// Key lines of `[env]` so far.
    pub events: Seq<EnvEventView>,
    /// The error that stopped the scan.
    pub stop: Option<ParseFault>,
}

pub open spec fn scan_start() -> ScanView {
    ScanView { in_env: false, pending: Seq::empty(), events: Seq::empty(), stop: None }
}

pub open spec fn stopped(st: ScanView, f: ParseFault) -> ScanView {
    ScanView { in_env: st.in_env, pending: st.pending, events: st.events, stop: Some(f) }
}

/// One line of the scan: a section header switches section (refusing to
/// leave `[env]` with a directive still unbound); a directive comment is
/// queued (only inside `[env]`, only with a known value); a key line in
/// `[env]` takes the queued directive, if there is exactly one.
pub open spec fn scan_line(st: ScanView, line: Seq<char>) -> ScanView {
    if st.stop is Some {
        st
    } else {
        match crate::directive_syntax::section_header(line) {
            Some(sec) => if st.in_env && st.pending.len() > 0 {
                stopped(st, ParseFault::DirectiveUnbound { value: st.pending[0].1 })
            } else {
                ScanView {
                    in_env: sec == "env"@,
                    pending: st.pending,
                    events: st.events,
                    stop: st.stop,
                }
            },
            None => match crate::directive_syntax::directive_comment(line) {
                DirectiveLine::Malformed => stopped(
                    st,
                    ParseFault::DirectiveMalformed { line: line },
                ),
                DirectiveLine::Value(v) => match directive_named(v) {
                    None => stopped(st, ParseFault::DirectiveUnknownValue { value: v }),
                    Some(d) => if !st.in_env {
                        stopped(st, ParseFault::DirectiveOutsideEnv { value: v })
                    } else {
                        ScanView {
                            in_env: st.in_env,
                            pending: st.pending.push((d, v)),
                            events: st.events,
                            stop: st.stop,
                        }
                    },
                },
                DirectiveLine::NotDirective => if !st.in_env {
                    st
                } else {
                    match crate::directive_syntax::bare_key(line) {
                        None => st,
                        Some(k) => bind_key(st, k),
                    }
                },
            },
        }
    }
}

/// A key line of `[env]`: a plain key with no directive queued, a bound key
/// with exactly one, an error with more.
pub open spec fn bind_key(st: ScanView, k: Seq<char>) -> ScanView {
    if st.pending.len() == 0 {
        ScanView {
            in_env: st.in_env,
            pending: st.pending,
            events: st.events.push(EnvEventView::Plain(k)),
            stop: st.stop,
        }
    } else if st.pending.len() == 1 {
        ScanView {
            in_env: st.in_env,
            pending: Seq::empty(),
            events: st.events.push(EnvEventView::Bound(st.pending[0].0, k)),
            stop: st.stop,
        }
    } else {
        ScanView {
            in_env: st.in_env,
            pending: Seq::empty(),
            events: st.events,
            stop: Some(ParseFault::DirectiveOnSameVar { name: k }),
        }
    }
}

/// The scan state after reading `lines` in order.
pub open spec fn scan_lines(lines: Seq<Seq<char>>) -> ScanView
    decreases lines.len(),
{
    if lines.len() == 0 {
        scan_start()
    } else {
        scan_line(scan_lines(lines.drop_last()), lines.last())
    }
}

/// End of input: a directive still unbound inside `[env]` is an error.
pub open spec fn scan_finish(st: ScanView) -> ScanView {
    if st.stop is None && st.in_env && st.pending.len() > 0 {
        stopped(st, ParseFault::DirectiveUnbound { value: st.pending[0].1 })
    } else {
        st
    }
}

/// The outline of the `[env]` section of `content`.
pub open spec fn env_outline(content: Seq<char>) -> (Seq<EnvEventView>, Option<ParseFault>) {
    let st = scan_finish(scan_lines(text::lines(content)));
    (st.events, st.stop)
}

struct EnvScan {
    in_env: bool,
    pending: Vec<(Directive, String)>,
    events: Vec<EnvEvent>,
    stop: Option<ParseMakefileError>,
}

impl View for EnvScan {
    type V = ScanView;

    closed spec fn view(&self) -> ScanView {
        ScanView {
            in_env: self.in_env,
            pending: self.pending@.map_values(|p: (Directive, String)| (p.0, p.1@)),
            events: events_view(self.events@),
            stop: opt_fault(self.stop),
        }
    }
}

impl EnvScan {
    fn new() -> (res: EnvScan)
        ensures
            res@ == scan_start(),
    {
        let res = EnvScan { in_env: false, pending: Vec::new(), events: Vec::new(), stop: None };
        assert(res@.pending =~= Seq::<(Directive, Seq<char>)>::empty());
        assert(res@.events =~= Seq::<EnvEventView>::empty());
        res
    }

    fn first_pending_unbound(&self) -> (res: ParseMakefileError)
        requires
            self.pending.len() > 0,
        ensures
            res@ == (ParseFault::DirectiveUnbound { value: self@.pending[0].1 }),
    {
        ParseMakefileError::DirectiveUnbound { value: self.pending[0].1.clone() }
    }

    fn feed(&mut self, line: &Vec<char>)
        ensures
            final(self)@ == scan_line(old(self)@, line@),
    {
        if self.stop.is_some() {
            return;
        }
        match match_section_header(line) {
            Some(sec) => {
                if self.in_env && self.pending.len() > 0 {
                    let err = self.first_pending_unbound();
                    self.stop = Some(err);
                } else {
                    self.in_env = text::str_equals(sec.as_str(), "env");
                }
                return;
            },
            None => {},
        }
        match match_directive_comment(line) {
            Err(()) => {
                let whole = text::string_from_chars(line, 0, line.len());
                assert(line@.subrange(0, line@.len() as int) =~= line@);
                self.stop = Some(ParseMakefileError::DirectiveMalformed { line: whole });
            },
            Ok(Some(v)) => {
                match directive_of(&v) {
                    None => {
                        self.stop = Some(ParseMakefileError::DirectiveUnknownValue { value: v });
                    },
                    Some(d) => {
                        if !self.in_env {
                            self.stop = Some(ParseMakefileError::DirectiveOutsideEnv { value: v });
                        } else {
                            let ghost before = self@.pending;
                            self.pending.push((d, v));
                            assert(self@.pending =~= before.push((d, v@)));
                        }
                    },
                }
            },
            Ok(None) => {
                if self.in_env {
                    match match_bare_key(line) {
                        None => {},
                        Some(k) => self.bind_pending_to(k),
                    }
                }
            },
        }
    }

    fn bind_pending_to(&mut self, key: String)
        requires
            old(self).stop is None,
        ensures
            final(self)@ == bind_key(old(self)@, key@),
    {
        let ghost before = self@;
        let n = self.pending.len();
        if n == 0 {
            self.events.push(EnvEvent::Plain(key));
            assert(self@.events =~= before.events.push(EnvEventView::Plain(key@)));
        } else if n == 1 {
            let d = self.pending[0].0;
            self.pending = Vec::new();
            self.events.push(EnvEvent::Bound(d, key));
            assert(self@.events =~= before.events.push(EnvEventView::Bound(d, key@)));
            assert(self@.pending =~= Seq::<(Directive, Seq<char>)>::empty());
        } else {
            self.pending = Vec::new();
            self.stop = Some(ParseMakefileError::DirectiveOnSameVar { name: key });
            assert(self@.pending =~= Seq::<(Directive, Seq<char>)>::empty());
        }
    }

    fn finish(self) -> (res: EnvOutline)
        ensures
            events_view(res.events@) == scan_finish(self@).events,
            opt_fault(res.stop) == scan_finish(self@).stop,
    {
        if self.stop.is_none() && self.in_env && self.pending.len() > 0 {
            let err = self.first_pending_unbound();
            EnvOutline { events: self.events, stop: Some(err) }
        } else {
            EnvOutline { events: self.events, stop: self.stop }
        }
    }
}

/// Scans the lines of `content` for `[env]` keys and makerz directives.
pub fn scan_env(content: &str) -> (res: EnvOutline)
    ensures
        (events_view(res.events@), opt_fault(res.stop)) == env_outline(content@),
{
    let chars = text::str_chars(content);
    let lines = text::split_lines(&chars);
    let ghost all = text::char_lines(lines@);
    let mut scan = EnvScan::new();
    let mut i: usize = 0;
    while i < lines.len()
        invariant
            i <= lines.len(),
            all == text::char_lines(lines@),
            all == text::lines(content@),
            scan@ == scan_lines(all.take(i as int)),
        decreases lines.len() - i,
    {
        assert(all.take(i + 1).drop_last() =~= all.take(i as int));
        assert(all.take(i + 1).last() == lines@[i as int]@);
        scan.feed(&lines[i]);
        i = i + 1;
    }
    assert(all.take(lines.len() as int) =~= all);
    scan.finish()
}

/// An env key bound by a makerz directive, with its fallback value.
#[derive(Debug, PartialEq, Eq, Clone)]
pub struct EnvBinding {
    name: String,
    fallback: String,
}

pub struct BindingView {
    pub name: Seq<char>,
    pub fallback: Seq<char>,
}

impl View for EnvBinding {
    type V = BindingView;

    closed spec fn view(&self) -> BindingView {
        BindingView { name: self.name@, fallback: self.fallback@ }
    }
}

impl EnvBinding {
    /// The env key.
    pub fn name(&self) -> (res: &str)
        ensures
            res@ == self@.name,
    {
        self.name.as_str()
    }

    /// The value the key has in the Makefile.
    pub fn fallback(&self) -> (res: &str)
        ensures
            res@ == self@.fallback,
    {
        self.fallback.as_str()
    }
}

/// What the `[env]` section of a Makefile binds.
#[derive(Debug, PartialEq, Eq)]
pub struct ParsedEnv {
    file: Option<EnvBinding>,
    caller: Option<EnvBinding>,
    inherit: Vec<EnvBinding>,
    plain_keys: Vec<String>,
}

pub struct EnvView {
    pub file: Option<BindingView>,
    pub caller: Option<BindingView>,
    pub inherit: Seq<BindingView>,
    pub plain_keys: Seq<Seq<char>>,
}

pub open spec fn opt_binding(b: Option<EnvBinding>) -> Option<BindingView> {
    match b {
        Some(b) => Some(b@),
        None => None,
    }
}

impl View for ParsedEnv {
    type V = EnvView;

    closed spec fn view(&self) -> EnvView {
        EnvView {
            file: opt_binding(self.file),
            caller: opt_binding(self.caller),
            inherit: self.inherit@.map_values(|b: EnvBinding| b@),
            plain_keys: self.plain_keys@.map_values(|k: String| k@),
        }
    }
}

pub open spec fn empty_env() -> EnvView {
    EnvView { file: None, caller: None, inherit: Seq::empty(), plain_keys: Seq::empty() }
}

impl ParsedEnv {
    /// An env section with no keys.
    pub fn empty() -> (res: ParsedEnv)
        ensures
            res@ == empty_env(),
    {
        let res = ParsedEnv { file: None, caller: None, inherit: Vec::new(), plain_keys: Vec::new() };
        assert(res@.inherit =~= Seq::<BindingView>::empty());
        assert(res@.plain_keys =~= Seq::<Seq<char>>::empty());
        res
    }

    /// The key bound by the `file` directive.
    pub fn file(&self) -> (res: Option<&EnvBinding>)
        ensures
            match res {
                Some(b) => self@.file == Some(b@),
                None => self@.file is None,
            },
    {
        self.file.as_ref()
    }

    /// The key bound by the `caller` directive.
    pub fn caller(&self) -> (res: Option<&EnvBinding>)
        ensures
            match res {
                Some(b) => self@.caller == Some(b@),
                None => self@.caller is None,
            },
    {
        self.caller.as_ref()
    }

    /// The keys bound by `inherit` directives, in order.
    pub fn inherit(&self) -> (res: &[EnvBinding])
        ensures
            res@.map_values(|b: EnvBinding| b@) == self@.inherit,
    {
        self.inherit.as_slice()
    }

    /// The keys with no directive, in order.
    pub fn plain_keys(&self) -> (res: &[String])
        ensures
            res@.map_values(|k: String| k@) == self@.plain_keys,
    {
        self.plain_keys.as_slice()
    }
}

impl Default for ParsedEnv {
    fn default() -> (res: ParsedEnv)
        ensures
            res@ == empty_env(),
    {
        ParsedEnv::empty()
    }
}

/// The fallback found for the `i`-th key line (none past the end).
pub open spec fn fallback_at(fallbacks: Seq<Option<Seq<char>>>, i: int) -> Option<Seq<char>> {
    if 0 <= i < fallbacks.len() {
        fallbacks[i]
    } else {
        None
    }
}

/// One key line of the outline added to the env: a plain key is recorded;
/// a bound key needs a string fallback, and `file` / `caller` may be bound
/// only once.
pub open spec fn bind_event(env: EnvView, e: EnvEventView, fallback: Option<Seq<char>>) -> Result<
    EnvView,
    ParseFault,
> {
    match e {
        EnvEventView::Plain(k) => Ok(
            EnvView {
                file: env.file,
                caller: env.caller,
                inherit: env.inherit,
                plain_keys: env.plain_keys.push(k),
            },
        ),
        EnvEventView::Bound(d, k) => match fallback {
            None => Err(ParseFault::FallbackNotString { name: k }),
            Some(f) => {
                let b = BindingView { name: k, fallback: f };
                match d {
                    Directive::File => match env.file {
                        Some(p) => Err(ParseFault::DuplicateFile { previous: p.name, new: k }),
                        None => Ok(
                            EnvView {
                                file: Some(b),
                                caller: env.caller,
                                inherit: env.inherit,
                                plain_keys: env.plain_keys,
                            },
                        ),
                    },
                    Directive::Caller => match env.caller {
                        Some(p) => Err(ParseFault::DuplicateCaller { previous: p.name, new: k }),
                        None => Ok(
                            EnvView {
                                file: env.file,
                                caller: Some(b),
                                inherit: env.inherit,
                                plain_keys: env.plain_keys,
                            },
                        ),
                    },
                    Directive::Inherit => Ok(
                        EnvView {
                            file: env.file,
                            caller: env.caller,
                            inherit: env.inherit.push(b),
                            plain_keys: env.plain_keys,
                        },
                    ),
                }
            },
        },
    }
}

/// The env after the first `n` key lines, or the first error among them.
pub open spec fn assemble_prefix(
    events: Seq<EnvEventView>,
    fallbacks: Seq<Option<Seq<char>>>,
    n: int,
) -> Result<EnvView, ParseFault>
    decreases n,
{
    if n <= 0 {
        Ok(empty_env())
    } else {
        match assemble_prefix(events, fallbacks, n - 1) {
            Err(f) => Err(f),
            Ok(env) => bind_event(env, events[n - 1], fallback_at(fallbacks, n - 1)),
        }
    }
}

/// The env of an outline: every key line in order, then the error that
/// stopped the scan, if any.
pub open spec fn assemble(
    events: Seq<EnvEventView>,
    fallbacks: Seq<Option<Seq<char>>>,
    stop: Option<ParseFault>,
) -> Result<EnvView, ParseFault> {
    match assemble_prefix(events, fallbacks, events.len() as int) {
        Err(f) => Err(f),
        Ok(env) => match stop {
            Some(f) => Err(f),
            None => Ok(env),
        },
    }
}

/// Once a prefix of the key lines fails, every longer prefix fails the same way.
pub proof fn lemma_assemble_error_sticks(
    events: Seq<EnvEventView>,
    fallbacks: Seq<Option<Seq<char>>>,
    m: int,
    n: int,
)
    requires
        m <= n,
        assemble_prefix(events, fallbacks, m) is Err,
    ensures
        assemble_prefix(events, fallbacks, n) == assemble_prefix(events, fallbacks, m),
    decreases n - m,
{
    if m < n {
        lemma_assemble_error_sticks(events, fallbacks, m, n - 1);
    }
}

pub open spec fn env_result(r: Result<ParsedEnv, ParseMakefileError>) -> Result<EnvView, ParseFault> {
    match r {
        Ok(env) => Ok(env@),
        Err(e) => Err(e@),
    }
}

pub open spec fn opt_views(v: Seq<Option<String>>) -> Seq<Option<Seq<char>>> {
    v.map_values(|o: Option<String>| text::opt_view(o))
}

/// Builds the env of an outline, `fallbacks[i]` being the string value of
/// the `i`-th key line in the `[env]` table (if it is one).
pub fn assemble_env(outline: EnvOutline, fallbacks: &Vec<Option<String>>) -> (res: Result<
    ParsedEnv,
    ParseMakefileError,
>)
    ensures
        env_result(res) == assemble(
            events_view(outline.events@),
            opt_views(fallbacks@),
            opt_fault(outline.stop),
        ),
{
    let ghost events = events_view(outline.events@);
    let ghost fbs = opt_views(fallbacks@);
    let mut env = ParsedEnv::empty();
    let mut i: usize = 0;
    while i < outline.events.len()
        invariant
            i <= outline.events.len(),
            events == events_view(outline.events@),
            fbs == opt_views(fallbacks@),
            assemble_prefix(events, fbs, i as int) == Ok::<EnvView, ParseFault>(env@),
        decreases outline.events.len() - i,
    {
        let ghost before = env@;
        let fallback: Option<String> = if i < fallbacks.len() {
            match &fallbacks[i] {
                Some(f) => Some(f.clone()),
                None => None,
            }
        } else {
            None
        };
        assert(text::opt_view(fallback) == fallback_at(fbs, i as int));
        match &outline.events[i] {
            EnvEvent::Plain(k) => {
                env.plain_keys.push(k.clone());
                assert(env@.plain_keys =~= before.plain_keys.push(k@));
            },
            EnvEvent::Bound(d, k) => {
                let f = match fallback {
                    Some(f) => f,
                    None => {
                        proof {
                            lemma_assemble_error_sticks(events, fbs, i + 1, events.len() as int);
                        }
                        return Err(ParseMakefileError::FallbackNotString { name: k.clone() });
                    },
                };
                let binding = EnvBinding { name: k.clone(), fallback: f };
                match d {
                    Directive::File => {
                        match &env.file {
                            Some(prev) => {
                                proof {
                                    lemma_assemble_error_sticks(events, fbs, i + 1, events.len() as int);
                                }
                                return Err(
                                    ParseMakefileError::DuplicateFile {
                                        previous: prev.name.clone(),
                                        new: k.clone(),
                                    },
                                );
                            },
                            None => {},
                        }
                        env.file = Some(binding);
                    },
                    Directive::Caller => {
                        match &env.caller {
                            Some(prev) => {
                                proof {
                                    lemma_assemble_error_sticks(events, fbs, i + 1, events.len() as int);
                                }
                                return Err(
                                    ParseMakefileError::DuplicateCaller {
                                        previous: prev.name.clone(),
                                        new: k.clone(),
                                    },
                                );
                            },
                            None => {},
                        }
                        env.caller = Some(binding);
                    },
                    Directive::Inherit => {
                        env.inherit.push(binding);
                        assert(env@.inherit =~= before.inherit.push(binding@));
                    },
                }
            },
        }
        i = i + 1;
    }
    match outline.stop {
        Some(e) => Err(e),
        None => Ok(env),
    }
}

/// How the error for a non-string `extend` names the item's type.
pub open spec fn kind_label(kind: ItemKind) -> Seq<char> {
    match kind {
        ItemKind::Empty => "none"@,
        ItemKind::String => "string"@,
        ItemKind::Integer => "integer"@,
        ItemKind::Float => "float"@,
        ItemKind::Boolean => "boolean"@,
        ItemKind::Datetime => "datetime"@,
        ItemKind::Array => "array"@,
        ItemKind::InlineTable => "inline-table"@,
        ItemKind::Table => "table"@,
        ItemKind::ArrayOfTables => "array-of-tables"@,
    }
}

/// The label of an item's type, see [`kind_label`].
pub fn item_kind_label(kind: ItemKind) -> (res: &'static str)
    ensures
        res@ == kind_label(kind),
{
    match kind {
        ItemKind::Empty => "none",
        ItemKind::String => "string",
        ItemKind::Integer => "integer",
        ItemKind::Float => "float",
        ItemKind::Boolean => "boolean",
        ItemKind::Datetime => "datetime",
        ItemKind::Array => "array",
        ItemKind::InlineTable => "inline-table",
        ItemKind::Table => "table",
        ItemKind::ArrayOfTables => "array-of-tables",
    }
}

/// The top-level `extend` of a Makefile, from what the TOML document says
/// of the `extend` item: its kind (absent: `None`), its text when it is a
/// string, its length when it is an array, the text of its `relative` field
/// when it is an inline table holding one, and whether it is an inline table
/// holding `optional`. A string is the parent's path. A list of one path is
/// [`ParseFault::ExtendMultiParent`]; an inline table with `relative` (first)
/// or `optional` is [`ParseFault::ExtendRelative`] or
/// [`ParseFault::ExtendOptional`]; anything else is
/// [`ParseFault::ExtendNotString`] with the kind's label.
pub open spec fn extend_value(
    kind: Option<ItemKind>,
    text: Option<Seq<char>>,
    len: Option<nat>,
    relative: Option<Option<Seq<char>>>,
    optional: bool,
) -> Result<Option<Seq<char>>, ParseFault> {
    match kind {
        None => Ok(None),
        Some(k) => match text {
            Some(s) => Ok(Some(s)),
            None => if len == Some(1nat) {
                Err(ParseFault::ExtendMultiParent)
            } else {
                match relative {
                    Some(v) => Err(ParseFault::ExtendRelative { value: v }),
                    None => if optional {
                        Err(ParseFault::ExtendOptional)
                    } else {
                        Err(ParseFault::ExtendNotString { kind: kind_label(k) })
                    },
                }
            },
        },
    }
}

/// [`extend_value`] of the `extend` item of a document with `entries`.
pub open spec fn extend_of(entries: Map<Seq<char>, toml::TomlEntry>) -> Result<
    Option<Seq<char>>,
    ParseFault,
> {
    extend_value(
        toml::entry_kind(entries, "extend"@),
        toml::entry_text(entries, "extend"@),
        toml::entry_len(entries, "extend"@),
        toml::inline_field(entries, "extend"@, "relative"@),
        toml::inline_field(entries, "extend"@, "optional"@) is Some,
    )
}

/// In a parsed document, a string `extend` is the parent's path, an absent
/// one means no parent, and every other kind of `extend` is refused: a
/// string never comes back as [`ParseFault::ExtendNotString`].
pub proof fn law_extend_string_is_parent(entries: Map<Seq<char>, toml::TomlEntry>)
    requires
        toml::entries_shaped(entries),
    ensures
        toml::entry_kind(entries, "extend"@) is None ==> extend_of(entries) == Ok::<
            Option<Seq<char>>,
            ParseFault,
        >(None),
        toml::entry_kind(entries, "extend"@) == Some(ItemKind::String) ==> extend_of(entries)
            == Ok::<Option<Seq<char>>, ParseFault>(Some(entries["extend"@].text.unwrap())),
        toml::entry_kind(entries, "extend"@) matches Some(k) && k != ItemKind::String
            ==> extend_of(entries) is Err,
        extend_of(entries) != Err::<Option<Seq<char>>, ParseFault>(
            ParseFault::ExtendNotString { kind: "string"@ },
        ),
{
    if entries.contains_key("extend"@) {
        assert(toml::entry_shape(entries["extend"@]));
        let k = entries["extend"@].kind;
        if k != ItemKind::String {
            assert(kind_label(k) != "string"@) by {
                reveal_strlit("string");
                reveal_strlit("none");
                reveal_strlit("integer");
                reveal_strlit("float");
                reveal_strlit("boolean");
                reveal_strlit("datetime");
                reveal_strlit("array");
                reveal_strlit("inline-table");
                reveal_strlit("table");
                reveal_strlit("array-of-tables");
                assert(kind_label(k)[0] != "string"@[0]);
            }
        }
    }
}

pub open spec fn extend_result(r: Result<Option<String>, ParseMakefileError>) -> Result<
    Option<Seq<char>>,
    ParseFault,
> {
    match r {
        Ok(o) => Ok(text::opt_view(o)),
        Err(e) => Err(e@),
    }
}

pub open spec fn nested_view(o: Option<Option<String>>) -> Option<Option<Seq<char>>> {
    match o {
        Some(v) => Some(text::opt_view(v)),
        None => None,
    }
}

/// The value of the top-level `extend` item, see [`extend_value`].
pub fn extend_from_item(
    kind: Option<ItemKind>,
    text: Option<String>,
    len: Option<usize>,
    relative: Option<Option<String>>,
    optional: bool,
) -> (res: Result<Option<String>, ParseMakefileError>)
    ensures
        extend_result(res) == extend_value(
            kind,
            text::opt_view(text),
            match len {
                Some(n) => Some(n as nat),
                None => None,
            },
            nested_view(relative),
            optional,
        ),
{
    match kind {
        None => Ok(None),
        Some(k) => match text {
            Some(s) => Ok(Some(s)),
            None => {
                if let Some(1) = len {
                    return Err(ParseMakefileError::ExtendMultiParent);
                }
                match relative {
                    Some(value) => Err(ParseMakefileError::ExtendRelative { value }),
                    None => if optional {
                        Err(ParseMakefileError::ExtendOptional)
                    } else {
                        Err(ParseMakefileError::ExtendNotString { kind: item_kind_label(k) })
                    },
                }
            },
        },
    }
}

/// The top-level `extend` of a parsed document.
fn parse_extend(doc: &DocumentMut) -> (res: Result<Option<String>, ParseMakefileError>)
    ensures
        extend_result(res) == extend_of(toml::document_entries(*doc)),
{
    let kind = toml::top_item_kind(doc, "extend");
    let text = toml::top_item_str(doc, "extend");
    let len = toml::top_array_len(doc, "extend");
    let relative = toml::top_inline_field(doc, "extend", "relative");
    let optional = toml::top_inline_field(doc, "extend", "optional").is_some();
    extend_from_item(kind, text, len, relative, optional)
}

/// The fallback of each key line: the string under that key in `[env]`.
pub open spec fn env_fallbacks(
    events: Seq<EnvEventView>,
    entries: Map<Seq<char>, toml::TomlEntry>,
) -> Seq<Option<Seq<char>>> {
    events.map_values(|e: EnvEventView| toml::table_text(entries, "env"@, event_key(e)))
}

/// The env section of `content`, whose TOML document has `entries`.
pub open spec fn env_of(content: Seq<char>, entries: Map<Seq<char>, toml::TomlEntry>) -> Result<
    EnvView,
    ParseFault,
> {
    let (events, stop) = env_outline(content);
    assemble(events, env_fallbacks(events, entries), stop)
}

/// The env section of `content`, whose parsed document is `doc`.
pub fn parse_env(content: &str, doc: &DocumentMut) -> (res: Result<ParsedEnv, ParseMakefileError>)
    ensures
        env_result(res) == env_of(content@, toml::document_entries(*doc)),
{
    let ghost entries = toml::document_entries(*doc);
    let outline = scan_env(content);
    let ghost events = events_view(outline.events@);
    let mut fallbacks: Vec<Option<String>> = Vec::new();
    let mut i: usize = 0;
    while i < outline.events.len()
        invariant
            i <= outline.events.len(),
            events == events_view(outline.events@),
            entries == toml::document_entries(*doc),
            opt_views(fallbacks@) == env_fallbacks(events, entries).take(i as int),
        decreases outline.events.len() - i,
    {
        let key = outline.events[i].key();
        let found = toml::table_item_str(doc, "env", key.as_str());
        let ghost before = opt_views(fallbacks@);
        fallbacks.push(found);
        assert(opt_views(fallbacks@) =~= before.push(text::opt_view(found)));
        assert(env_fallbacks(events, entries).take(i + 1) =~= env_fallbacks(events, entries).take(
            i as int,
        ).push(toml::table_text(entries, "env"@, event_key(events[i as int]))));
        i = i + 1;
    }
    assert(env_fallbacks(events, entries).take(i as int) =~= env_fallbacks(events, entries));
    assemble_env(outline, &fallbacks)
}

/// What a Makefile's text yields: its env section and its `extend`, or the
/// first error (TOML syntax, then `extend`, then the env section).
pub open spec fn makefile_of(content: Seq<char>) -> Result<(EnvView, Option<Seq<char>>), ParseFault> {
    match toml::toml_document(content) {
        None => Err(ParseFault::TomlParse),
        Some(entries) => match extend_of(entries) {
            Err(f) => Err(f),
            Ok(ext) => match env_of(content, entries) {
                Err(f) => Err(f),
                Ok(env) => Ok((env, ext)),
            },
        },
    }
}

pub open spec fn content_result(r: Result<(ParsedEnv, Option<String>), ParseMakefileError>) -> Result<
    (EnvView, Option<Seq<char>>),
    ParseFault,
> {
    match r {
        Ok((env, ext)) => Ok((env@, text::opt_view(ext))),
        Err(e) => Err(e@),
    }
}

/// Parses the text of a Makefile, see [`makefile_of`].
pub fn parse_content(content: &str) -> (res: Result<(ParsedEnv, Option<String>), ParseMakefileError>)
    ensures
        content_result(res) == makefile_of(content@),
{
    let doc = match toml::parse_document(content) {
        Ok(doc) => doc,
        Err(e) => return Err(ParseMakefileError::TomlParse(e)),
    };
    let extend = match parse_extend(&doc) {
        Ok(extend) => extend,
        Err(e) => return Err(e),
    };
    let env = match parse_env(content, &doc) {
        Ok(env) => env,
        Err(e) => return Err(e),
    };
    Ok((env, extend))
}

/// A parsed `Makefile.toml`.
#[derive(Debug, PartialEq, Eq)]
pub struct ParsedMakefile {
    location: MakefileLocation,
    env: ParsedEnv,
    extend: Option<String>,
}

pub struct MakefileView {
    pub location: Seq<u8>,
    pub env: EnvView,
    pub extend: Option<Seq<char>>,
}

impl View for ParsedMakefile {
    type V = MakefileView;

    closed spec fn view(&self) -> MakefileView {
        MakefileView {
            location: self.location@,
            env: self.env@,
            extend: text::opt_view(self.extend),
        }
    }
}

impl ParsedMakefile {
    /// Where the Makefile is.
    pub fn location(&self) -> (res: &MakefileLocation)
        ensures
            res@ == self@.location,
    {
        &self.location
    }

    /// Its `[env]` section.
    pub fn env(&self) -> (res: &ParsedEnv)
        ensures
            res@ == self@.env,
    {
        &self.env
    }

    /// Its top-level `extend`, if any.
    pub fn extend(&self) -> (res: Option<&str>)
        ensures
            match res {
                Some(s) => self@.extend == Some(s@),
                None => self@.extend is None,
            },
    {
        match &self.extend {
            Some(s) => Some(s.as_str()),
            None => None,
        }
    }
}

/// The Makefile at `location`, from the result of reading its file: a read
/// failure is reported with the file's path, else the text is parsed.
pub fn parse_loaded(location: MakefileLocation, content: Result<String, std::io::Error>) -> (res:
    Result<ParsedMakefile, ParseMakefileError>)
    ensures
        match content {
            Err(source) => res matches Err(ParseMakefileError::Read { path, source: s })
                && path@ == crate::path::join_bytes(location@, crate::location::makefile_name())
                && s == source,
            Ok(text) => match makefile_of(text@) {
                Err(f) => res matches Err(e) && e@ == f,
                Ok((env, extend)) => res matches Ok(p) && p@ == (MakefileView {
                    location: location@,
                    env: env,
                    extend: extend,
                }),
            },
        },
{
    let text = match content {
        Ok(text) => text,
        Err(source) => {
            return Err(ParseMakefileError::Read { path: location.file(), source });
        },
    };
    match parse_content(text.as_str()) {
        Ok((env, extend)) => Ok(ParsedMakefile { location, env, extend }),
        Err(e) => Err(e),
    }
}

/// The binding an env holds for the `file` or `caller` directive.
pub open spec fn single_slot(env: EnvView, d: Directive) -> Option<BindingView> {
    match d {
        Directive::File => env.file,
        Directive::Caller => env.caller,
        Directive::Inherit => None,
    }
}

/// Once a prefix of the key lines has bound `d` (`file` or `caller`), every
/// longer prefix that still assembles keeps it bound.
proof fn lemma_slot_stays_bound(
    events: Seq<EnvEventView>,
    fallbacks: Seq<Option<Seq<char>>>,
    d: Directive,
    i: int,
    n: int,
)
    requires
        d != Directive::Inherit,
        0 <= i < n <= events.len(),
        events[i] matches EnvEventView::Bound(d2, _) && d2 == d,
    ensures
        assemble_prefix(events, fallbacks, n) matches Ok(env) ==> single_slot(env, d) is Some,
    decreases n,
{
    if n > i + 1 {
        lemma_slot_stays_bound(events, fallbacks, d, i, n - 1);
    }
}

/// `file` and `caller` may each be bound at most once per Makefile: an
/// outline with two key lines bound to the same one of them never
/// assembles.
pub proof fn law_single_binding(
    events: Seq<EnvEventView>,
    fallbacks: Seq<Option<Seq<char>>>,
    stop: Option<ParseFault>,
    d: Directive,
    i: int,
    j: int,
)
    requires
        d != Directive::Inherit,
        0 <= i < j < events.len(),
        events[i] matches EnvEventView::Bound(d1, _) && d1 == d,
        events[j] matches EnvEventView::Bound(d2, _) && d2 == d,
    ensures
        assemble(events, fallbacks, stop) is Err,
{
    lemma_slot_stays_bound(events, fallbacks, d, i, j);
    assert(assemble_prefix(events, fallbacks, j + 1) is Err);
    lemma_assemble_error_sticks(events, fallbacks, j + 1, events.len() as int);
}

/// The key line `e` is bound to the directive `d`.
pub open spec fn binds(e: EnvEventView, d: Directive) -> bool {
    e matches EnvEventView::Bound(d1, _) && d1 == d
}

/// A Makefile whose text parses binds `file`, and `caller`, on at most one
/// key line of its `[env]` section.
pub proof fn law_parsed_makefile_binds_once(content: Seq<char>, d: Directive, i: int, j: int)
    requires
        d != Directive::Inherit,
        makefile_of(content) is Ok,
        0 <= i < j < env_outline(content).0.len(),
    ensures
        !(binds(env_outline(content).0[i], d) && binds(env_outline(content).0[j], d)),
{
    let entries = toml::toml_document(content).unwrap();
    let (events, stop) = env_outline(content);
    if binds(events[i], d) && binds(events[j], d) {
        law_single_binding(events, env_fallbacks(events, entries), stop, d, i, j);
    }
}

/// The error for a second binding of `d` (`file` or `caller`).
pub open spec fn duplicate_fault(d: Directive, previous: Seq<char>, new: Seq<char>) -> ParseFault {
    match d {
        Directive::File => ParseFault::DuplicateFile { previous, new },
        _ => ParseFault::DuplicateCaller { previous, new },
    }
}

/// The second binding of `file` or `caller` is refused with both names:
/// when the key lines before `j` assemble with `d` bound to `previous`, and
/// line `j` binds `d` again to a key `new` with a string value, the env
/// section fails with `DuplicateFile` / `DuplicateCaller { previous, new }`.
pub proof fn law_second_binding_names_both(
    events: Seq<EnvEventView>,
    fallbacks: Seq<Option<Seq<char>>>,
    stop: Option<ParseFault>,
    d: Directive,
    j: int,
    previous: BindingView,
    new: Seq<char>,
)
    requires
        d != Directive::Inherit,
        0 <= j < events.len(),
        fallback_at(fallbacks, j) is Some,
        assemble_prefix(events, fallbacks, j) matches Ok(env) && single_slot(env, d) == Some(
            previous,
        ),
        events[j] == EnvEventView::Bound(d, new),
    ensures
        assemble(events, fallbacks, stop) == Err::<EnvView, ParseFault>(
            duplicate_fault(d, previous.name, new),
        ),
{
    lemma_assemble_error_sticks(events, fallbacks, j + 1, events.len() as int);
}

/// A binding takes the string value of its key in the `[env]` table.
pub open spec fn binding_from_table(b: BindingView, entries: Map<Seq<char>, toml::TomlEntry>) -> bool {
    toml::table_text(entries, "env"@, b.name) == Some(b.fallback)
}

/// Every binding of an env takes its key's value in the `[env]` table.
pub open spec fn bindings_from_table(env: EnvView, entries: Map<Seq<char>, toml::TomlEntry>) -> bool {
    &&& env.file matches Some(b) ==> binding_from_table(b, entries)
    &&& env.caller matches Some(b) ==> binding_from_table(b, entries)
    &&& forall|k: int|
        0 <= k < env.inherit.len() ==> binding_from_table(#[trigger] env.inherit[k], entries)
}

proof fn lemma_prefix_bindings_from_table(
    events: Seq<EnvEventView>,
    entries: Map<Seq<char>, toml::TomlEntry>,
    n: int,
)
    requires
        n <= events.len(),
    ensures
        assemble_prefix(events, env_fallbacks(events, entries), n) matches Ok(env)
            ==> bindings_from_table(env, entries),
    decreases n,
{
    if n > 0 {
        lemma_prefix_bindings_from_table(events, entries, n - 1);
        let fbs = env_fallbacks(events, entries);
        assert(fallback_at(fbs, n - 1) == toml::table_text(entries, "env"@, event_key(events[n - 1])));
        if let Ok(env) = assemble_prefix(events, fbs, n - 1) {
            if let Ok(next) = bind_event(env, events[n - 1], fallback_at(fbs, n - 1)) {
                assert forall|k: int| 0 <= k < next.inherit.len() implies binding_from_table(
                    #[trigger] next.inherit[k],
                    entries,
                ) by {
                    if k < env.inherit.len() {
                        assert(next.inherit[k] == env.inherit[k]);
                    }
                }
            }
        }
    }
}

/// The fallback of every directive-bound key is the key's string value in
/// the Makefile's `[env]` table.
pub proof fn law_fallbacks_come_from_env_table(
    content: Seq<char>,
    entries: Map<Seq<char>, toml::TomlEntry>,
)
    ensures
        env_of(content, entries) matches Ok(env) ==> bindings_from_table(env, entries),
{
    let (events, stop) = env_outline(content);
    lemma_prefix_bindings_from_table(events, entries, events.len() as int);
}

/// A line with nothing but whitespace.
pub open spec fn is_blank(line: Seq<char>) -> bool {
    forall|k: int| 0 <= k < line.len() ==> text::is_space(#[trigger] line[k])
}

/// A comment line that is not a makerz directive.
pub open spec fn is_other_comment(line: Seq<char>) -> bool {
    let a = text::skip_space(line, 0);
    &&& a < line.len()
    &&& line[a] == '#'
    &&& crate::directive_syntax::directive_comment(line) is NotDirective
}

/// A directive binds to the `[env]` key on the next key line: blank lines
/// and other comments in between leave it waiting, a key line takes it, and
/// a section header or the end of the file leaves it unbound, which is an
/// error.
pub proof fn law_directive_binds_following_key(st: ScanView, line: Seq<char>)
    requires
        st.stop is None,
        st.in_env,
        st.pending.len() == 1,
    ensures
        is_blank(line) || is_other_comment(line) ==> scan_line(st, line) == st,
        crate::directive_syntax::section_header(line) is Some ==> scan_line(st, line) == stopped(
            st,
            ParseFault::DirectiveUnbound { value: st.pending[0].1 },
        ),
        ({
            &&& crate::directive_syntax::section_header(line) is None
            &&& crate::directive_syntax::directive_comment(line) is NotDirective
            &&& crate::directive_syntax::bare_key(line) is Some
        }) ==> scan_line(st, line) == (ScanView {
            in_env: true,
            pending: Seq::empty(),
            events: st.events.push(
                EnvEventView::Bound(st.pending[0].0, crate::directive_syntax::bare_key(line)->0),
            ),
            stop: None,
        }),
        scan_finish(st) == stopped(st, ParseFault::DirectiveUnbound { value: st.pending[0].1 }),
{
    text::lemma_skip_space_bounds(line, 0);
    let a = text::skip_space(line, 0);
    if is_blank(line) {
        if a < line.len() {
            assert(text::is_space(line[a]));
        }
        assert(a == line.len());
    }
    if is_other_comment(line) {
        assert(line[a] != '[');
        assert(!(line[a] == '_' || text::is_ascii_letter(line[a])));
    }
}

/// The name of the last section header among `lines`, if there is one.
pub open spec fn section_before(lines: Seq<Seq<char>>) -> Option<Seq<char>>
    decreases lines.len(),
{
    if lines.len() == 0 {
        None
    } else {
        match crate::directive_syntax::section_header(lines.last()) {
            Some(sec) => Some(sec),
            None => section_before(lines.drop_last()),
        }
    }
}

/// The key of `line`, read after `lines`, when it is a `KEY = ...` line of
/// the `[env]` section (and not a header or directive comment).
pub open spec fn env_key_of(lines: Seq<Seq<char>>, line: Seq<char>) -> Option<Seq<char>> {
    if section_before(lines) == Some("env"@) && crate::directive_syntax::section_header(line) is None
        && crate::directive_syntax::directive_comment(line) is NotDirective {
        crate::directive_syntax::bare_key(line)
    } else {
        None
    }
}

/// The keys of the `[env]` key lines among `lines`, in order, one per line.
pub open spec fn env_keys(lines: Seq<Seq<char>>) -> Seq<Seq<char>>
    decreases lines.len(),
{
    if lines.len() == 0 {
        Seq::empty()
    } else {
        match env_key_of(lines.drop_last(), lines.last()) {
            Some(k) => env_keys(lines.drop_last()).push(k),
            None => env_keys(lines.drop_last()),
        }
    }
}

/// The number of directive comments among `lines`.
pub open spec fn directive_count(lines: Seq<Seq<char>>) -> nat
    decreases lines.len(),
{
    if lines.len() == 0 {
        0
    } else {
        directive_count(lines.drop_last()) + if crate::directive_syntax::section_header(
            lines.last(),
        ) is None && crate::directive_syntax::directive_comment(lines.last()) is Value {
            1nat
        } else {
            0nat
        }
    }
}

/// The keys the events name, in order.
pub open spec fn event_keys(events: Seq<EnvEventView>) -> Seq<Seq<char>> {
    events.map_values(|e: EnvEventView| event_key(e))
}

/// The number of bound key lines among `events`.
pub open spec fn bound_count(events: Seq<EnvEventView>) -> nat
    decreases events.len(),
{
    if events.len() == 0 {
        0
    } else {
        bound_count(events.drop_last()) + if events.last() is Bound {
            1nat
        } else {
            0nat
        }
    }
}

proof fn lemma_event_push(events: Seq<EnvEventView>, e: EnvEventView)
    ensures
        event_keys(events.push(e)) == event_keys(events).push(event_key(e)),
        bound_count(events.push(e)) == bound_count(events) + if e is Bound {
            1nat
        } else {
            0nat
        },
{
    assert(event_keys(events.push(e)) =~= event_keys(events).push(event_key(e)));
    assert(events.push(e).drop_last() =~= events);
}

/// The `[env]` key lines are partitioned: a scan that meets no error has
/// recorded each key line of the `[env]` section exactly once, in order,
/// as either a plain key or a bound one (never both), and has used each
/// directive comment for exactly one binding, or still holds it for the
/// next key line.
pub proof fn law_env_lines_partitioned(lines: Seq<Seq<char>>)
    requires
        scan_lines(lines).stop is None,
    ensures
        event_keys(scan_lines(lines).events) == env_keys(lines),
        bound_count(scan_lines(lines).events) + scan_lines(lines).pending.len() == directive_count(
            lines,
        ),
        scan_lines(lines).in_env == (section_before(lines) == Some("env"@)),
    decreases lines.len(),
{
    if lines.len() == 0 {
        assert(event_keys(Seq::<EnvEventView>::empty()) =~= Seq::<Seq<char>>::empty());
    } else {
        let pre = lines.drop_last();
        let line = lines.last();
        let st = scan_lines(pre);
        assert(st.stop is None);
        law_env_lines_partitioned(pre);
        if crate::directive_syntax::section_header(line) is None {
            match crate::directive_syntax::directive_comment(line) {
                DirectiveLine::NotDirective => {
                    if st.in_env {
                        match crate::directive_syntax::bare_key(line) {
                            Some(k) => {
                                if st.pending.len() == 0 {
                                    lemma_event_push(st.events, EnvEventView::Plain(k));
                                } else {
                                    lemma_event_push(
                                        st.events,
                                        EnvEventView::Bound(st.pending[0].0, k),
                                    );
                                }
                            },
                            None => {},
                        }
                    }
                },
                _ => {},
            }
        }
    }
}

/// The keys of the plain key lines among `events`, in order.
pub open spec fn plain_keys_of(events: Seq<EnvEventView>) -> Seq<Seq<char>>
    decreases events.len(),
{
    if events.len() == 0 {
        Seq::empty()
    } else {
        match events.last() {
            EnvEventView::Plain(k) => plain_keys_of(events.drop_last()).push(k),
            _ => plain_keys_of(events.drop_last()),
        }
    }
}

/// The keys of the key lines bound to `inherit` among `events`, in order.
pub open spec fn inherit_keys_of(events: Seq<EnvEventView>) -> Seq<Seq<char>>
    decreases events.len(),
{
    if events.len() == 0 {
        Seq::empty()
    } else {
        match events.last() {
            EnvEventView::Bound(Directive::Inherit, k) => inherit_keys_of(events.drop_last()).push(k),
            _ => inherit_keys_of(events.drop_last()),
        }
    }
}

/// The names of `bindings`, in order.
pub open spec fn binding_names(bindings: Seq<BindingView>) -> Seq<Seq<char>> {
    bindings.map_values(|b: BindingView| b.name)
}

/// How many keys an env names: its plain keys, its `inherit` bindings and
/// its `file` and `caller` bindings.
pub open spec fn env_size(env: EnvView) -> nat {
    env.plain_keys.len() + env.inherit.len() + (if env.file is Some {
        1nat
    } else {
        0nat
    }) + (if env.caller is Some {
        1nat
    } else {
        0nat
    })
}

proof fn lemma_assemble_shape(events: Seq<EnvEventView>, fallbacks: Seq<Option<Seq<char>>>, n: int)
    requires
        0 <= n <= events.len(),
    ensures
        assemble_prefix(events, fallbacks, n) matches Ok(env) ==> {
            &&& env_size(env) == n
            &&& env.plain_keys == plain_keys_of(events.take(n))
            &&& binding_names(env.inherit) == inherit_keys_of(events.take(n))
        },
    decreases n,
{
    if n == 0 {
        assert(events.take(0) =~= Seq::<EnvEventView>::empty());
        assert(binding_names(Seq::<BindingView>::empty()) =~= Seq::<Seq<char>>::empty());
    } else {
        lemma_assemble_shape(events, fallbacks, n - 1);
        assert(events.take(n).drop_last() =~= events.take(n - 1));
        assert(events.take(n).last() == events[n - 1]);
        if let Ok(prev) = assemble_prefix(events, fallbacks, n - 1) {
            if let Ok(env) = assemble_prefix(events, fallbacks, n) {
                match events[n - 1] {
                    EnvEventView::Bound(Directive::Inherit, k) => {
                        let b = BindingView { name: k, fallback: fallback_at(fallbacks, n - 1)->0 };
                        assert(env.inherit == prev.inherit.push(b));
                        assert(binding_names(prev.inherit.push(b)) =~= binding_names(
                            prev.inherit,
                        ).push(k));
                    },
                    _ => {},
                }
            }
        }
    }
}

/// A Makefile whose text parses has an env section that names every key
/// line of its `[env]` section exactly once: the key lines are partitioned
/// into plain keys and bindings (see [`law_env_lines_partitioned`]), the
/// plain keys and the `inherit` bindings keep the order of their lines, and
/// `file`, `caller`, `inherit` and the plain keys together name as many keys
/// as there are key lines.
pub proof fn law_parsed_env_names_each_key_line(content: Seq<char>)
    requires
        makefile_of(content) is Ok,
    ensures
        ({
            let lines = text::lines(content);
            let events = env_outline(content).0;
            let env = makefile_of(content)->Ok_0.0;
            &&& scan_lines(lines).stop is None
            &&& events == scan_lines(lines).events
            &&& event_keys(events) == env_keys(lines)
            &&& env.plain_keys == plain_keys_of(events)
            &&& binding_names(env.inherit) == inherit_keys_of(events)
            &&& env_size(env) == env_keys(lines).len()
        }),
{
    let lines = text::lines(content);
    let st = scan_lines(lines);
    let entries = toml::toml_document(content)->0;
    let events = env_outline(content).0;
    assert(st.stop is None);
    law_env_lines_partitioned(lines);
    lemma_assemble_shape(events, env_fallbacks(events, entries), events.len() as int);
    assert(events.take(events.len() as int) =~= events);
    assert(event_keys(events).len() == events.len());
}

/// Some key line before `n` is bound to `d`.
pub open spec fn bound_before(events: Seq<EnvEventView>, n: int, d: Directive) -> bool {
    exists|i: int| 0 <= i < n && #[trigger] binds(events[i], d)
}

proof fn lemma_assemble_unique_ok(events: Seq<EnvEventView>, fallbacks: Seq<Option<Seq<char>>>, n: int)
    requires
        0 <= n <= events.len(),
        forall|i: int| 0 <= i < events.len() && (#[trigger] events[i]) is Bound ==> fallback_at(fallbacks, i) is Some,
        forall|i: int, j: int|
            0 <= i < j < events.len() && #[trigger] binds(events[i], Directive::File) ==> !#[trigger] binds(
                events[j],
                Directive::File,
            ),
        forall|i: int, j: int|
            0 <= i < j < events.len() && #[trigger] binds(events[i], Directive::Caller) ==> !#[trigger] binds(
                events[j],
                Directive::Caller,
            ),
    ensures
        assemble_prefix(events, fallbacks, n) matches Ok(env) && (env.file is Some ==> bound_before(
            events,
            n,
            Directive::File,
        )) && (env.caller is Some ==> bound_before(events, n, Directive::Caller)),
    decreases n,
{
    if n > 0 {
        lemma_assemble_unique_ok(events, fallbacks, n - 1);
        let env = assemble_prefix(events, fallbacks, n - 1)->Ok_0;
        let e = events[n - 1];
        if e is Bound {
            assert(fallback_at(fallbacks, n - 1) is Some);
        }
        if env.file is Some {
            let i = choose|i: int| 0 <= i < n - 1 && #[trigger] binds(events[i], Directive::File);
            assert(!binds(events[n - 1], Directive::File));
            assert(binds(events[i], Directive::File));
        }
        if env.caller is Some {
            let i = choose|i: int| 0 <= i < n - 1 && #[trigger] binds(events[i], Directive::Caller);
            assert(!binds(events[n - 1], Directive::Caller));
            assert(binds(events[i], Directive::Caller));
        }
        if let Ok(env2) = assemble_prefix(events, fallbacks, n) {
            if env2.file is Some {
                if env.file is Some {
                    let i = choose|i: int| 0 <= i < n - 1 && #[trigger] binds(events[i], Directive::File);
                    assert(binds(events[i], Directive::File));
                } else {
                    assert(binds(events[n - 1], Directive::File));
                }
            }
            if env2.caller is Some {
                if env.caller is Some {
                    let i = choose|i: int| 0 <= i < n - 1 && #[trigger] binds(events[i], Directive::Caller);
                    assert(binds(events[i], Directive::Caller));
                } else {
                    assert(binds(events[n - 1], Directive::Caller));
                }
            }
        }
    }
}

/// The `[env]` key lines always assemble when nothing is wrong with them:
/// if `file` and `caller` are each bound at most once, every bound key has a
/// string value and the scan stopped on no error, the env section is `Ok`,
/// with the plain keys in the order of their lines. Plain keys before or
/// after a binding never make it fail.
pub proof fn law_assemble_ok_without_conflict(
    events: Seq<EnvEventView>,
    fallbacks: Seq<Option<Seq<char>>>,
)
    requires
        forall|i: int| 0 <= i < events.len() && (#[trigger] events[i]) is Bound ==> fallback_at(fallbacks, i) is Some,
        forall|i: int, j: int|
            0 <= i < j < events.len() && #[trigger] binds(events[i], Directive::File) ==> !#[trigger] binds(
                events[j],
                Directive::File,
            ),
        forall|i: int, j: int|
            0 <= i < j < events.len() && #[trigger] binds(events[i], Directive::Caller) ==> !#[trigger] binds(
                events[j],
                Directive::Caller,
            ),
    ensures
        assemble(events, fallbacks, None) matches Ok(env) && env.plain_keys == plain_keys_of(events),
{
    lemma_assemble_unique_ok(events, fallbacks, events.len() as int);
    lemma_assemble_shape(events, fallbacks, events.len() as int);
    assert(events.take(events.len() as int) =~= events);
}

/// A directive bound to a key whose value is no string is refused with that
/// key's name, once the key lines before it assemble.
pub proof fn law_bound_key_needs_string(
    events: Seq<EnvEventView>,
    fallbacks: Seq<Option<Seq<char>>>,
    stop: Option<ParseFault>,
    j: int,
    d: Directive,
    name: Seq<char>,
)
    requires
        0 <= j < events.len(),
        assemble_prefix(events, fallbacks, j) is Ok,
        events[j] == EnvEventView::Bound(d, name),
        fallback_at(fallbacks, j) is None,
    ensures
        assemble(events, fallbacks, stop) == Err::<EnvView, ParseFault>(
            ParseFault::FallbackNotString { name },
        ),
{
    lemma_assemble_error_sticks(events, fallbacks, j + 1, events.len() as int);
}

} // verus!
