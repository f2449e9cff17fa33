//! Finding the `dsh web` backend and reading what it prints while it starts.

use vstd::prelude::*;
use crate::text::{
    chars_of, decimal, digit_run_end, ends_with, ends_with_chars, find, find_in, first_match_from,
    is_ascii_alphabetic,
    is_ascii_digit, joined, leading_digits, lemma_leading_digits, matches_at, non_empty, non_empty_value,
    occurs_at, opt_view, push_decimal,
    push_joined, push_range, skip_class_forward, starts_with, string_of, suffix, trim_start, views,
    CharClass,
};

verus! {

// ---------------------------------------------------------------------------
// The announced URL

/// The exact prefix the web app prints when it is listening.
pub const URL_PREFIX: &'static str = "http://127.0.0.1:";

pub open spec fn url_prefix() -> Seq<char> {
    seq!['h', 't', 't', 'p', ':', '/', '/', '1', '2', '7', '.', '0', '.', '0', '.', '1', ':']
}

/// The loopback URL a line of backend output announces: the prefix at its
/// first occurrence, followed by the digits of the port, when there is at
/// least one.
pub open spec fn announced_url(line: Seq<char>) -> Option<Seq<char>> {
    match find(line, url_prefix()) {
        Some(i) => {
            let port = leading_digits(line.skip(i + url_prefix().len()));
            if port.len() > 0 {
                Some(url_prefix() + port)
            } else {
                None
            }
        },
        None => None,
    }
}

/// Extract `http://127.0.0.1:<port>` from a stdout line such as
/// `dsh web: http://127.0.0.1:54321`.
pub fn extract_url(line: &str) -> (r: Option<String>)
    ensures
        r matches Some(u) ==> announced_url(line@) == Some(u@),
        r is None ==> announced_url(line@) is None,
{
    let cs = chars_of(line);
    proof {
        reveal_strlit("http://127.0.0.1:");
    }
    let prefix = chars_of(URL_PREFIX);
    assert(prefix@ =~= url_prefix());
    match find_in(&cs, &prefix) {
        None => None,
        Some(pos) => {
            assert(pos + prefix@.len() <= cs@.len() && cs@.len() == cs.len());
            let start = pos + prefix.len();
            let end = digit_run_end(&cs, start);
            if end == start {
                None
            } else {
                let mut url = String::from_str(URL_PREFIX);
                push_range(&mut url, &cs, start, end);
                Some(url)
            }
        },
    }
}

// ---------------------------------------------------------------------------
// Node version directory names

/// The value of a string of decimal digits.
pub open spec fn digits_value(d: Seq<char>) -> nat
    decreases d.len(),
{
    if d.len() == 0 {
        0
    } else {
        digits_value(d.drop_last()) * 10 + (d.last() as nat - 48) as nat
    }
}

/// The `k`-th piece of `s` split at `'.'`, as `s.split('.')` yields it.
pub open spec fn dot_field(s: Seq<char>, k: nat) -> Option<Seq<char>>
    decreases k,
{
    match find(s, seq!['.']) {
        None => if k == 0 {
            Some(s)
        } else {
            None
        },
        Some(i) => if k == 0 {
            Some(s.take(i))
        } else {
            dot_field(s.skip(i + 1), (k - 1) as nat)
        },
    }
}

/// The number a version field stands for: its leading digits read as a
/// `u32`, or 0 when it has none or they do not fit.
pub open spec fn field_number(field: Option<Seq<char>>) -> u32 {
    match field {
        Some(f) => {
            let d = leading_digits(f);
            if d.len() > 0 && digits_value(d) <= u32::MAX {
                digits_value(d) as u32
            } else {
                0
            }
        },
        None => 0,
    }
}

/// The `(major, minor, patch)` triple a Node version directory name stands
/// for: leading `v`s dropped, split at dots, each of the first three pieces
/// read by `field_number`.
pub open spec fn version_of(name: Seq<char>) -> (u32, u32, u32) {
    let s = trim_start(name, CharClass::Is('v'));
    (field_number(dot_field(s, 0)), field_number(dot_field(s, 1)), field_number(dot_field(s, 2)))
}


/// The number the characters `cs[lo..hi]` stand for as a version field.
fn field_value(cs: &Vec<char>, lo: usize, hi: usize) -> (v: u32)
    requires
        lo <= hi <= cs@.len(),
    ensures
        v == field_number(Some(cs@.subrange(lo as int, hi as int))),
{
    let ghost f = cs@.subrange(lo as int, hi as int);
    let mut j = lo;
    let mut value: u64 = 0;
    let mut too_big = false;
    while j < hi && '0' <= cs[j] && cs[j] <= '9'
        invariant
            lo <= j <= hi <= cs@.len(),
            f == cs@.subrange(lo as int, hi as int),
            forall|i: int| lo <= i < j ==> is_ascii_digit(#[trigger] cs@[i]),
            !too_big ==> value == digits_value(cs@.subrange(lo as int, j as int)) && value <= u32::MAX,
            too_big ==> digits_value(cs@.subrange(lo as int, j as int)) > u32::MAX,
        decreases hi - j,
    {
        let d = cs[j];
        let ghost before = cs@.subrange(lo as int, j as int);
        proof {
            assert(cs@.subrange(lo as int, j + 1).drop_last() =~= before);
        }
        if !too_big {
            let digit: u64 = if d == '0' { 0 } else if d == '1' { 1 } else if d == '2' { 2 }
                else if d == '3' { 3 } else if d == '4' { 4 } else if d == '5' { 5 }
                else if d == '6' { 6 } else if d == '7' { 7 } else if d == '8' { 8 } else { 9 };
            assert(digit == d as nat - 48);
            value = value * 10 + digit;
            if value > 4294967295 {
                too_big = true;
            }
        }
        j = j + 1;
    }
    proof {
        let t = f;
        assert forall|i: int| 0 <= i < j - lo implies is_ascii_digit(#[trigger] t[i]) by {
            assert(t[i] == cs@[lo + i]);
        }
        lemma_leading_digits(t, j - lo);
        assert(t.take(j - lo) =~= cs@.subrange(lo as int, j as int));
    }
    if j == lo || too_big {
        0
    } else {
        value as u32
    }
}

/// The number of the first dot-separated field of `s`, and the rest of `s`
/// after that field's dot, when there is one.
fn first_field(s: &Vec<char>) -> (r: (u32, Option<Vec<char>>))
    ensures
        r.0 == field_number(dot_field(s@, 0)),
        r.1 matches Some(rest) ==> forall|k: nat| #[trigger] dot_field(s@, k + 1) == dot_field(rest@, k),
        r.1 is None ==> forall|k: nat| k > 0 ==> #[trigger] dot_field(s@, k) is None,
{
    let dot = vec!['.'];
    assert(dot@ =~= seq!['.']);
    match find_in(s, &dot) {
        None => {
            assert(s@.subrange(0, s@.len() as int) =~= s@);
            (field_value(s, 0, s.len()), None)
        },
        Some(i) => {
            assert(i + 1 <= s@.len() && s@.len() == s.len());
            assert(s@.subrange(0, i as int) =~= s@.take(i as int));
            let v = field_value(s, 0, i);
            let rest = suffix(s, i + 1);
            assert forall|k: nat| #[trigger] dot_field(s@, k + 1) == dot_field(rest@, k) by {
                assert((k + 1) as nat - 1 == k);
            }
            (v, Some(rest))
        },
    }
}

/// Parse a Node version directory name (`v20.11.0`, `20.11.0`) into a sortable
/// triple. Anything unparseable reads as 0.
pub fn parse_version(name: &str) -> (r: (u32, u32, u32))
    ensures
        r == version_of(name@),
{
    let cs = chars_of(name);
    let start = skip_class_forward(&cs, 0, cs.len(), CharClass::Is('v'));
    proof {
        assert(cs@.subrange(0, cs@.len() as int) =~= cs@);
        assert(cs@.subrange(start as int, cs@.len() as int) =~= cs@.skip(start as int));
    }
    let s = suffix(&cs, start);
    let (major, rest) = first_field(&s);
    match rest {
        None => {
            assert(dot_field(s@, 1) is None);
            assert(dot_field(s@, 2) is None);
            (major, 0, 0)
        },
        Some(rest) => {
            let (minor, rest2) = first_field(&rest);
            assert(dot_field(s@, 0 + 1) == dot_field(rest@, 0));
            assert(dot_field(s@, 1 + 1) == dot_field(rest@, 1));
            match rest2 {
                None => {
                    assert(dot_field(rest@, 1) is None);
                    (major, minor, 0)
                },
                Some(rest2) => {
                    let (patch, _) = first_field(&rest2);
                    assert(dot_field(rest@, 0 + 1) == dot_field(rest2@, 0));
                    (major, minor, patch)
                },
            }
        },
    }
}

// ---------------------------------------------------------------------------
// Paths

pub open spec fn verbatim_marker() -> Seq<char> {
    seq!['\\', '\\', '?', '\\']
}

pub open spec fn unc_marker() -> Seq<char> {
    seq!['U', 'N', 'C', '\\']
}

/// `path` without Windows' extended-length prefix: `\\?\UNC\server\share`
/// becomes `\\server\share`, `\\?\C:\...` becomes `C:\...`, and every other
/// path is left as it is.
pub open spec fn without_verbatim_prefix(path: Seq<char>) -> Seq<char> {
    if starts_with(path, verbatim_marker()) {
        let rest = path.skip(4);
        if starts_with(rest, unc_marker()) {
            seq!['\\', '\\'] + rest.skip(4)
        } else if rest.len() >= 2 && is_ascii_alphabetic(rest[0]) && rest[1] == ':' {
            rest
        } else {
            path
        }
    } else {
        path
    }
}

proof fn lemma_starts_with_occurs(s: Seq<char>, p: Seq<char>)
    ensures
        starts_with(s, p) == occurs_at(s, p, 0),
{
    if p.len() <= s.len() {
        assert(s.subrange(0, p.len() as int) =~= s.take(p.len() as int));
    }
}

/// Strip Windows' extended-length (`\\?\`) prefix from a path, so that it can
/// be handed to Node.
pub fn strip_verbatim_prefix(path: &str) -> (r: String)
    ensures
        r@ == without_verbatim_prefix(path@),
{
    let cs = chars_of(path);
    let marker = vec!['\\', '\\', '?', '\\'];
    assert(marker@ =~= verbatim_marker());
    proof {
        lemma_starts_with_occurs(cs@, verbatim_marker());
    }
    if matches_at(&cs, &marker, 0) {
        let rest = suffix(&cs, 4);
        let unc = vec!['U', 'N', 'C', '\\'];
        assert(unc@ =~= unc_marker());
        proof {
            lemma_starts_with_occurs(rest@, unc_marker());
        }
        if matches_at(&rest, &unc, 0) {
            let mut out = String::new();
            out.push('\\');
            out.push('\\');
            push_range(&mut out, &rest, 4, rest.len());
            assert(rest@.subrange(4, rest@.len() as int) =~= rest@.skip(4));
            assert(out@ =~= seq!['\\', '\\'] + rest@.skip(4));
            return out;
        }
        if rest.len() >= 2 && (('a' <= rest[0] && rest[0] <= 'z') || ('A' <= rest[0] && rest[0]
            <= 'Z')) && rest[1] == ':' {
            assert(rest@.subrange(0, rest@.len() as int) =~= rest@);
            return string_of(&rest, 0, rest.len());
        }
    }
    assert(cs@.subrange(0, cs@.len() as int) =~= cs@);
    string_of(&cs, 0, cs.len())
}


/// Does this path look like a JavaScript entry point rather than a binary?
pub open spec fn is_js_path(path: Seq<char>) -> bool {
    ||| ends_with(path, seq!['.', 'j', 's'])
    ||| ends_with(path, seq!['.', 'm', 'j', 's'])
    ||| ends_with(path, seq!['.', 'c', 'j', 's'])
}

/// Does this path look like a JavaScript entry point rather than a binary?
pub fn is_js_entry(path: &str) -> (r: bool)
    ensures
        r == is_js_path(path@),
{
    let cs = chars_of(path);
    let js = vec!['.', 'j', 's'];
    let mjs = vec!['.', 'm', 'j', 's'];
    let cjs = vec!['.', 'c', 'j', 's'];
    assert(js@ =~= seq!['.', 'j', 's']);
    assert(mjs@ =~= seq!['.', 'm', 'j', 's']);
    assert(cjs@ =~= seq!['.', 'c', 'j', 's']);
    ends_with_chars(&cs, &js) || ends_with_chars(&cs, &mjs) || ends_with_chars(&cs, &cjs)
}

/// The position of the last `c` in `s`.
pub open spec fn last_index_of(s: Seq<char>, c: char) -> Option<int>
    decreases s.len(),
{
    if s.len() == 0 {
        None
    } else if s.last() == c {
        Some(s.len() - 1)
    } else {
        last_index_of(s.drop_last(), c)
    }
}

/// The extension of a file name, as `Path::extension` gives it: what follows
/// the last dot, when something other than nothing precedes that dot.
pub open spec fn extension(name: Seq<char>) -> Option<Seq<char>> {
    match last_index_of(name, '.') {
        Some(i) => if i > 0 && name != seq!['.', '.'] {
            Some(name.skip(i + 1))
        } else {
            None
        },
        None => None,
    }
}

/// The code of `c` with ASCII upper-case letters lowered.
pub open spec fn ascii_lower(c: char) -> u32 {
    if 'A' <= c && c <= 'Z' {
        ((c as u32) + 32) as u32
    } else {
        c as u32
    }
}

/// `a` and `b` are equal once ASCII letters are lower-cased.
pub open spec fn eq_ignore_ascii_case(a: Seq<char>, b: Seq<char>) -> bool {
    a.len() == b.len() && forall|i: int| 0 <= i < a.len() ==> ascii_lower(#[trigger] a[i]) == ascii_lower(b[i])
}

/// A file name of a Windows batch script: its extension is `cmd` or `bat`,
/// in any case.
pub open spec fn is_batch_name(name: Seq<char>) -> bool {
    match extension(name) {
        Some(e) => eq_ignore_ascii_case(e, seq!['c', 'm', 'd']) || eq_ignore_ascii_case(
            e,
            seq!['b', 'a', 't'],
        ),
        None => false,
    }
}

fn lower(c: char) -> (r: u32)
    ensures
        r == ascii_lower(c),
{
    if 'A' <= c && c <= 'Z' {
        c as u32 + 32
    } else {
        c as u32
    }
}

/// Whether `cs[lo..]` equals `word`, ignoring ASCII case.
fn tail_eq_ignore_case(cs: &Vec<char>, lo: usize, word: &Vec<char>) -> (r: bool)
    requires
        lo <= cs@.len(),
    ensures
        r == eq_ignore_ascii_case(cs@.skip(lo as int), word@),
{
    if cs.len() - lo != word.len() {
        return false;
    }
    let mut k: usize = 0;
    while k < word.len()
        invariant
            lo <= cs@.len(),
            cs@.len() == cs.len(),
            cs@.len() - lo == word@.len(),
            k <= word@.len(),
            forall|m: int| 0 <= m < k ==> ascii_lower(#[trigger] cs@.skip(lo as int)[m]) == ascii_lower(word@[m]),
        decreases word@.len() - k,
    {
        if lower(cs[lo + k]) != lower(word[k]) {
            assert(cs@.skip(lo as int)[k as int] == cs@[lo + k]);
            return false;
        }
        assert(cs@.skip(lo as int)[k as int] == cs@[lo + k]);
        k = k + 1;
    }
    true
}

/// Is a file with this name a Windows batch script rather than a real
/// executable? `CreateProcess` refuses those, so they go through `cmd.exe /C`.
pub fn is_batch_script(file_name: &str) -> (r: bool)
    ensures
        r == is_batch_name(file_name@),
{
    let cs = chars_of(file_name);
    let n = cs.len();
    let mut i = n;
    assert(cs@.take(n as int) =~= cs@);
    while i > 0 && cs[i - 1] != '.'
        invariant
            i <= n == cs@.len(),
            last_index_of(cs@.take(i as int), '.') == last_index_of(cs@, '.'),
        decreases i,
    {
        assert(cs@.take(i as int).drop_last() =~= cs@.take(i - 1));
        i = i - 1;
    }
    assert(cs@.take(n as int) =~= cs@);
    if i <= 1 {
        // No dot, or a dot with nothing before it.
        return false;
    }
    let dot = i - 1;
    assert(cs@.take(i as int).last() == '.');
    if n == 2 && cs[0] == '.' && cs[1] == '.' {
        assert(cs@ =~= seq!['.', '.']);
        return false;
    }
    assert(cs@ != seq!['.', '.']) by {
        if cs@ == seq!['.', '.'] {
            assert(cs@[0] == '.' && cs@[1] == '.');
        }
    }
    let cmd = vec!['c', 'm', 'd'];
    let bat = vec!['b', 'a', 't'];
    assert(cmd@ =~= seq!['c', 'm', 'd']);
    assert(bat@ =~= seq!['b', 'a', 't']);
    tail_eq_ignore_case(&cs, i, &cmd) || tail_eq_ignore_case(&cs, i, &bat)
}

// ---------------------------------------------------------------------------
// Environment values and arguments


/// The diagnostic shown when Node cannot be located anywhere.
pub open spec fn missing_node_text(needed_by: Seq<char>) -> Seq<char> {
    "Node.js not found, which "@ + needed_by
        + " requires. Install Node.js 20 or newer, or set DSH_DESKTOP_NODE to the full path of the `node` binary."@
}

/// The diagnostic shown when Node cannot be located anywhere.
pub fn missing_node_message(needed_by: &str) -> (r: String)
    ensures
        r@ == missing_node_text(needed_by@),
{
    let mut r = String::from_str("Node.js not found, which ");
    r.append(needed_by);
    r.append(
        " requires. Install Node.js 20 or newer, or set DSH_DESKTOP_NODE to the full path of the `node` binary.",
    );
    r
}

/// The port handed to `dsh web`: the `DSH_DESKTOP_PORT` value, or `0` (any
/// free port) when that is missing or blank.
pub open spec fn port_value(raw: Option<Seq<char>>) -> Seq<char> {
    match non_empty(raw) {
        Some(p) => p,
        None => seq!['0'],
    }
}

/// The `web --no-open --port <port>` arguments every backend command ends with.
pub fn web_args(port: Option<String>) -> (r: Vec<String>)
    ensures
        views(r@) == seq!["web"@, "--no-open"@, "--port"@, port_value(opt_view(port))],
{
    let p = match non_empty_value(port) {
        Some(p) => p,
        None => {
            let mut z = String::new();
            z.push('0');
            z
        },
    };
    let mut r: Vec<String> = Vec::new();
    r.push(String::from_str("web"));
    r.push(String::from_str("--no-open"));
    r.push(String::from_str("--port"));
    r.push(p);
    assert(views(r@) =~= seq!["web"@, "--no-open"@, "--port"@, port_value(opt_view(port))]);
    r
}

/// Render a command as a readable string for diagnostics: the program, a
/// space, and the arguments separated by spaces.
pub fn describe(program: &str, args: &Vec<String>) -> (r: String)
    ensures
        r@ == program@ + " "@ + joined(views(args@), " "@),
{
    let mut r = String::from_str(program);
    r.append(" ");
    push_joined(&mut r, args, " ");
    r
}

// ---------------------------------------------------------------------------
// Budgets

/// How long a locally installed backend may take to print its URL.
pub const READY_TIMEOUT_NS: u64 = 45_000_000_000;

/// How long the `npx` bootstrap may stay completely silent before it is given
/// up on: a download that still makes progress is never interrupted, a
/// wedged one fails fast.
pub const BOOTSTRAP_IDLE_TIMEOUT_NS: u64 = 150_000_000_000;

/// Absolute ceiling for the bootstrap, however chatty it is.
pub const BOOTSTRAP_TOTAL_TIMEOUT_NS: u64 = 2_700_000_000_000;

/// How long a backend may take to announce itself, and how long it may stay
/// silent while doing so, in nanoseconds.
#[derive(Clone, Copy, PartialEq, Eq, Debug, Structural)]
pub struct Budget {
    pub idle_ns: u64,
    pub total_ns: u64,
}

impl Budget {
    /// An already-installed backend: it prints nothing until the URL, so
    /// silence is the only thing there is to measure.
    pub fn local() -> (b: Self)
        ensures
            b.idle_ns == READY_TIMEOUT_NS && b.total_ns == READY_TIMEOUT_NS,
    {
        Budget { idle_ns: READY_TIMEOUT_NS, total_ns: READY_TIMEOUT_NS }
    }

    /// The `npx` bootstrap, which reports every package it fetches.
    pub fn bootstrap() -> (b: Self)
        ensures
            b.idle_ns == BOOTSTRAP_IDLE_TIMEOUT_NS && b.total_ns == BOOTSTRAP_TOTAL_TIMEOUT_NS,
    {
        Budget { idle_ns: BOOTSTRAP_IDLE_TIMEOUT_NS, total_ns: BOOTSTRAP_TOTAL_TIMEOUT_NS }
    }
}

// ---------------------------------------------------------------------------
// Which backend to run

/// Where the Node interpreter comes from.
#[derive(Clone, Copy, PartialEq, Eq, Debug, Structural)]
pub enum NodeSource {
    /// `DSH_DESKTOP_NODE`, which always wins.
    Explicit,
    /// The interpreter unpacked from the portable build.
    Bundled,
    /// A search of `PATH` and the well-known install directories.
    Search,
}

/// Where to take Node from: an explicit `DSH_DESKTOP_NODE` first, then the
/// bundled interpreter, then a search.
pub fn node_source(explicit_set: bool, bundled_present: bool) -> (r: NodeSource)
    ensures
        r == (if explicit_set {
            NodeSource::Explicit
        } else if bundled_present {
            NodeSource::Bundled
        } else {
            NodeSource::Search
        }),
{
    if explicit_set {
        NodeSource::Explicit
    } else if bundled_present {
        NodeSource::Bundled
    } else {
        NodeSource::Search
    }
}

/// A program or script path the caller has resolved.
#[derive(Clone, Copy, PartialEq, Eq, Debug, Structural)]
pub enum Tool {
    /// The Node interpreter.
    Node,
    /// The `DSH_DESKTOP_BACKEND` path.
    Backend,
    /// `<root>/backend/node_modules/@deepseek-ai/dsh/lib/bin.js` under a search root.
    Bundled,
    /// `dsh`, found on `PATH` or in a well-known install directory.
    Dsh,
    /// `npx`, found the same way.
    Npx,
}

/// The backend command: a program, an optional script it runs, fixed
/// arguments, an optional environment variable, then (added by the caller)
/// the `web_args`.
pub struct Launch {
    pub program: Tool,
    pub script: Option<Tool>,
    pub fixed_args: Vec<String>,
    pub env: Option<(String, String)>,
    pub budget: Budget,
}

pub struct LaunchView {
    pub program: Tool,
    pub script: Option<Tool>,
    pub fixed_args: Seq<Seq<char>>,
    pub env: Option<(Seq<char>, Seq<char>)>,
    pub budget: Budget,
}

impl View for Launch {
    type V = LaunchView;

    open spec fn view(&self) -> LaunchView {
        LaunchView {
            program: self.program,
            script: self.script,
            fixed_args: views(self.fixed_args@),
            env: match self.env {
                Some((k, v)) => Some((k@, v@)),
                None => None,
            },
            budget: self.budget,
        }
    }
}

/// A launch of `program` (running `script`, when there is one) under the local budget.
pub open spec fn local_launch(program: Tool, script: Option<Tool>) -> LaunchView {
    LaunchView { program, script, fixed_args: Seq::empty(), env: None, budget: Budget {
        idle_ns: READY_TIMEOUT_NS,
        total_ns: READY_TIMEOUT_NS,
    } }
}

/// The `npx --yes @deepseek-ai/dsh@latest` bootstrap, with npm reporting each
/// package it fetches, under the bootstrap budget.
pub open spec fn bootstrap_launch() -> LaunchView {
    LaunchView {
        program: Tool::Npx,
        script: None,
        fixed_args: seq!["--yes"@, "@deepseek-ai/dsh@latest"@],
        env: Some(("npm_config_loglevel"@, "http"@)),
        budget: Budget { idle_ns: BOOTSTRAP_IDLE_TIMEOUT_NS, total_ns: BOOTSTRAP_TOTAL_TIMEOUT_NS },
    }
}

pub open spec fn no_backend_text() -> Seq<char> {
    "no DeepSeek Harness backend found: set DSH_DESKTOP_BACKEND, run `npm run backend:install`, or install Node.js and `dsh`"@
}

/// The next thing backend resolution needs, or its outcome.
pub enum Resolution {
    /// Look for the bundled `bin.js` under the search roots.
    ProbeBundled,
    /// Look for `dsh`.
    FindDsh,
    /// Look for `npx`.
    FindNpx,
    /// Run this.
    Ready(Launch),
    /// No backend can be run, for this reason.
    Failed(String),
}

/// A `Resolution` as the contracts see it.
pub enum Step {
    ProbeBundled,
    FindDsh,
    FindNpx,
    Ready(LaunchView),
    Failed(Seq<char>),
}

pub open spec fn step_of(r: Resolution) -> Step {
    match r {
        Resolution::ProbeBundled => Step::ProbeBundled,
        Resolution::FindDsh => Step::FindDsh,
        Resolution::FindNpx => Step::FindNpx,
        Resolution::Ready(l) => Step::Ready(l@),
        Resolution::Failed(m) => Step::Failed(m@),
    }
}

/// The first step: an explicit backend wins, a `.js`/`.mjs`/`.cjs` one run
/// through Node (and failing without one), any other run directly; without
/// one, a bundled backend is looked for when there is a Node to run it, and
/// `dsh` otherwise.
pub open spec fn start_step(backend: Option<Seq<char>>, has_node: bool) -> Step {
    match backend {
        Some(b) => if is_js_path(b) {
            if has_node {
                Step::Ready(local_launch(Tool::Node, Some(Tool::Backend)))
            } else {
                Step::Failed(missing_node_text("DSH_DESKTOP_BACKEND"@))
            }
        } else {
            Step::Ready(local_launch(Tool::Backend, None))
        },
        None => if has_node {
            Step::ProbeBundled
        } else {
            Step::FindDsh
        },
    }
}

/// After looking for a bundled backend: run it through Node, or look for `dsh`.
pub open spec fn bundled_step(found: bool) -> Step {
    if found {
        Step::Ready(local_launch(Tool::Node, Some(Tool::Bundled)))
    } else {
        Step::FindDsh
    }
}

/// After looking for `dsh`: run it, or look for `npx`.
pub open spec fn dsh_step(found: bool) -> Step {
    if found {
        Step::Ready(local_launch(Tool::Dsh, None))
    } else {
        Step::FindNpx
    }
}

/// After looking for `npx`: bootstrap through it; otherwise fail, naming
/// Node when there is none, else the three ways to get a backend.
pub open spec fn npx_step(found: bool, has_node: bool) -> Step {
    if found {
        Step::Ready(bootstrap_launch())
    } else if !has_node {
        Step::Failed(missing_node_text("the bundled backend"@))
    } else {
        Step::Failed(no_backend_text())
    }
}

/// Where the steps lead from `s`, given what each lookup finds.
pub open spec fn settle(s: Step, has_node: bool, bundled: bool, dsh: bool, npx: bool) -> Step {
    let s1 = if s is ProbeBundled {
        bundled_step(bundled)
    } else {
        s
    };
    let s2 = if s1 is FindDsh {
        dsh_step(dsh)
    } else {
        s1
    };
    if s2 is FindNpx {
        npx_step(npx, has_node)
    } else {
        s2
    }
}

/// The backend the documented order picks: `DSH_DESKTOP_BACKEND`, then a
/// bundled backend (which needs Node), then `dsh`, then the `npx` bootstrap;
/// the first available one wins.
pub open spec fn first_available(
    backend: Option<Seq<char>>,
    has_node: bool,
    bundled: bool,
    dsh: bool,
    npx: bool,
) -> Result<LaunchView, Seq<char>> {
    match backend {
        Some(b) => if !is_js_path(b) {
            Ok(local_launch(Tool::Backend, None))
        } else if has_node {
            Ok(local_launch(Tool::Node, Some(Tool::Backend)))
        } else {
            Err(missing_node_text("DSH_DESKTOP_BACKEND"@))
        },
        None => if has_node && bundled {
            Ok(local_launch(Tool::Node, Some(Tool::Bundled)))
        } else if dsh {
            Ok(local_launch(Tool::Dsh, None))
        } else if npx {
            Ok(bootstrap_launch())
        } else if !has_node {
            Err(missing_node_text("the bundled backend"@))
        } else {
            Err(no_backend_text())
        },
    }
}

fn plain_launch(program: Tool, script: Option<Tool>) -> (l: Launch)
    ensures
        l@ == local_launch(program, script),
{
    let l = Launch { program, script, fixed_args: Vec::new(), env: None, budget: Budget::local() };
    assert(l@.fixed_args =~= Seq::<Seq<char>>::empty());
    l
}

/// The first step of backend resolution. `backend` is the (non-blank)
/// `DSH_DESKTOP_BACKEND` value and `has_node` whether Node was found.
pub fn resolve_start(backend: Option<&str>, has_node: bool) -> (r: Resolution)
    ensures
        step_of(r) == start_step(
            match backend {
                Some(b) => Some(b@),
                None => None,
            },
            has_node,
        ),
{
    match backend {
        Some(b) => {
            if is_js_entry(b) {
                if has_node {
                    Resolution::Ready(plain_launch(Tool::Node, Some(Tool::Backend)))
                } else {
                    Resolution::Failed(missing_node_message("DSH_DESKTOP_BACKEND"))
                }
            } else {
                Resolution::Ready(plain_launch(Tool::Backend, None))
            }
        },
        None => if has_node {
            Resolution::ProbeBundled
        } else {
            Resolution::FindDsh
        },
    }
}

/// The step after looking for a bundled backend.
pub fn resolve_after_bundled(found: bool) -> (r: Resolution)
    ensures
        step_of(r) == bundled_step(found),
{
    if found {
        Resolution::Ready(plain_launch(Tool::Node, Some(Tool::Bundled)))
    } else {
        Resolution::FindDsh
    }
}

/// The step after looking for `dsh`.
pub fn resolve_after_dsh(found: bool) -> (r: Resolution)
    ensures
        step_of(r) == dsh_step(found),
{
    if found {
        Resolution::Ready(plain_launch(Tool::Dsh, None))
    } else {
        Resolution::FindNpx
    }
}

/// The last step, after looking for `npx`.
pub fn resolve_after_npx(found: bool, has_node: bool) -> (r: Resolution)
    ensures
        step_of(r) == npx_step(found, has_node),
{
    if found {
        let mut fixed: Vec<String> = Vec::new();
        fixed.push(String::from_str("--yes"));
        fixed.push(String::from_str("@deepseek-ai/dsh@latest"));
        let l = Launch {
            program: Tool::Npx,
            script: None,
            fixed_args: fixed,
            env: Some((String::from_str("npm_config_loglevel"), String::from_str("http"))),
            budget: Budget::bootstrap(),
        };
        assert(l@.fixed_args =~= seq!["--yes"@, "@deepseek-ai/dsh@latest"@]);
        Resolution::Ready(l)
    } else if !has_node {
        Resolution::Failed(missing_node_message("the bundled backend"))
    } else {
        Resolution::Failed(
            String::from_str(
                "no DeepSeek Harness backend found: set DSH_DESKTOP_BACKEND, run `npm run backend:install`, or install Node.js and `dsh`",
            ),
        )
    }
}

/// Following the resolution steps from the first one, looking each thing
/// up when a step asks for it, ends in the backend the documented order
/// picks: the first available of `DSH_DESKTOP_BACKEND`, a bundled backend,
/// `dsh` and `npx`, or the error that names what is missing.
pub proof fn lemma_resolution_picks_first_available(
    backend: Option<Seq<char>>,
    has_node: bool,
    bundled: bool,
    dsh: bool,
    npx: bool,
)
    ensures
        match first_available(backend, has_node, bundled, dsh, npx) {
            Ok(l) => settle(start_step(backend, has_node), has_node, bundled, dsh, npx) == Step::Ready(l),
            Err(m) => settle(start_step(backend, has_node), has_node, bundled, dsh, npx) == Step::Failed(m),
        },
{
}

// ---------------------------------------------------------------------------
// Node installs managed by version managers

/// Versions ordered lexicographically, major first.
pub open spec fn version_gt(a: (u32, u32, u32), b: (u32, u32, u32)) -> bool {
    a.0 > b.0 || (a.0 == b.0 && (a.1 > b.1 || (a.1 == b.1 && a.2 > b.2)))
}

pub open spec fn version_key(v: (u32, u32, u32)) -> u128 {
    (v.0 as int * 0x1_0000_0000_0000_0000 + v.1 as int * 0x1_0000_0000 + v.2 as int) as u128
}

proof fn lemma_version_key(a: (u32, u32, u32), b: (u32, u32, u32))
    ensures
        version_key(a) > version_key(b) <==> version_gt(a, b),
        version_key(a) == version_key(b) <==> a == b,
{
}

/// The order to try version-manager directories in: the positions of `names`
/// (directory names such as `v20.11.0`) sorted by the version they stand for,
/// newest first, directories of equal versions in their listed order.
pub fn newest_first(names: &Vec<String>) -> (p: Vec<usize>)
    ensures
        crate::order::is_permutation(p@, names@.len()),
        forall|i: int, j: int|
            0 <= i < j < p@.len() ==> version_gt(
                version_of(names@[p@[i] as int]@),
                version_of(names@[p@[j] as int]@),
            ) || (version_of(names@[p@[i] as int]@) == version_of(names@[p@[j] as int]@) && p@[i]
                < p@[j]),
{
    let mut keys: Vec<u128> = Vec::new();
    let mut i: usize = 0;
    while i < names.len()
        invariant
            i <= names@.len(),
            keys@.len() == i,
            forall|k: int| 0 <= k < i ==> #[trigger] keys@[k] == version_key(version_of(names@[k]@)),
        decreases names@.len() - i,
    {
        let (a, b, c) = parse_version(names[i].as_str());
        let key = (a as u128) * 0x1_0000_0000_0000_0000 + (b as u128) * 0x1_0000_0000 + c as u128;
        keys.push(key);
        i = i + 1;
    }
    let p = crate::order::order_descending(&keys);
    proof {
        assert forall|i: int, j: int| 0 <= i < j < p@.len() implies version_gt(
            version_of(names@[p@[i] as int]@),
            version_of(names@[p@[j] as int]@),
        ) || (version_of(names@[p@[i] as int]@) == version_of(names@[p@[j] as int]@) && p@[i]
            < p@[j]) by {
            assert(p@[i] < names@.len() && p@[j] < names@.len());
            lemma_version_key(version_of(names@[p@[i] as int]@), version_of(names@[p@[j] as int]@));
        }
    }
    p
}

// ---------------------------------------------------------------------------
// Watching the backend start

/// How many of the backend's first output lines are kept for the error report.
pub const HEAD_LINES: usize = 25;

/// How many of its last output lines are kept as well.
pub const TAIL_LINES: usize = 25;

/// Minimum gap between progress lines forwarded to the UI, in nanoseconds.
pub const PROGRESS_THROTTLE_NS: u64 = 90_000_000;

/// One thing the backend told us while starting up.
pub enum Event {
    /// The loopback URL the server announced: startup is done.
    Url(String),
    /// A line of output, forwarded to the UI and kept for error reports.
    Line(String),
    /// One of the two output streams reached end of file.
    Closed,
}

/// What a line read from one of the backend's streams means: on stdout (the
/// stream scanned for the URL) a line announcing the URL is that URL; any
/// other line is plain output.
pub fn classify_line(line: String, scan_for_url: bool) -> (e: Event)
    ensures
        scan_for_url && announced_url(line@) is Some ==> (e matches Event::Url(u) && Some(u@)
            == announced_url(line@)),
        !(scan_for_url && announced_url(line@) is Some) ==> e == Event::Line(line),
{
    if scan_for_url {
        match extract_url(line.as_str()) {
            Some(url) => {
                return Event::Url(url);
            },
            None => {},
        }
    }
    Event::Line(line)
}

/// What waiting on the backend's output produced.
pub enum Wake {
    /// An event arrived.
    Event(Event),
    /// Nothing arrived within the idle budget.
    TimedOut,
    /// Every stream reader has gone.
    Disconnected,
}

/// What to do after an event: keep waiting, run the URL, or give up.
pub enum Verdict {
    Waiting,
    Ready(String),
    Failed(String),
}

pub open spec fn verdict_view(v: Verdict) -> Option<Result<Seq<char>, Seq<char>>> {
    match v {
        Verdict::Waiting => None,
        Verdict::Ready(u) => Some(Ok(u@)),
        Verdict::Failed(m) => Some(Err(m@)),
    }
}

/// The response to one wake-up: a line to show the user now, if any, and the verdict.
pub struct Reaction {
    pub forward: Option<String>,
    pub verdict: Verdict,
}

/// The first lines of `seen` that are kept.
pub open spec fn kept_head(seen: Seq<Seq<char>>) -> Seq<Seq<char>> {
    if seen.len() <= HEAD_LINES {
        seen
    } else {
        seen.take(HEAD_LINES as int)
    }
}

/// The last lines of `seen` that are kept, after the head.
pub open spec fn kept_tail(seen: Seq<Seq<char>>) -> Seq<Seq<char>> {
    if seen.len() <= HEAD_LINES {
        Seq::empty()
    } else if seen.len() <= HEAD_LINES + TAIL_LINES {
        seen.skip(HEAD_LINES as int)
    } else {
        seen.skip(seen.len() - TAIL_LINES)
    }
}

/// How many lines between the kept head and the kept tail were let go.
pub open spec fn dropped_count(n: nat) -> usize {
    if n <= HEAD_LINES + TAIL_LINES {
        0
    } else if n - (HEAD_LINES + TAIL_LINES) > usize::MAX {
        usize::MAX
    } else {
        (n - (HEAD_LINES + TAIL_LINES)) as usize
    }
}

pub open spec fn exited_text(description: Seq<char>) -> Seq<char> {
    "backend exited before announcing its URL ("@ + description + ")"@
}


pub open spec fn not_ready_text(description: Seq<char>, total_ns: u64) -> Seq<char> {
    "backend did not become ready within "@ + decimal((total_ns / 1_000_000_000) as nat) + "s ("@
        + description + ")"@
}

/// The line that stands for the `n` lines left out of a report.
pub open spec fn omitted_text(n: nat) -> Seq<char> {
    "\u{2026} "@ + decimal(n) + " more lines \u{2026}"@
}

/// The lines a failure report shows: the kept head, a line counting what was
/// left out (when anything was), and the kept tail.
pub open spec fn report_lines(seen: Seq<Seq<char>>) -> Seq<Seq<char>> {
    let n = dropped_count(seen.len());
    kept_head(seen) + (if n > 0 {
        seq![omitted_text(n as nat)]
    } else {
        Seq::empty()
    }) + kept_tail(seen)
}

/// The error a failed start reports: the reason, followed by the kept output
/// lines, each on its own line indented by two spaces.
pub open spec fn failure_text(reason: Seq<char>, seen: Seq<Seq<char>>) -> Seq<char> {
    let lines = report_lines(seen);
    if lines.len() == 0 {
        reason
    } else {
        reason + "\n  "@ + joined(lines, "\n  "@)
    }
}

/// Whether a line arriving at `now_ns` is shown: the first one always, later
/// ones once the throttle gap has passed since the last one finished showing.
pub open spec fn forward_due(last_ns: Option<u64>, now_ns: u64) -> bool {
    match last_ns {
        None => true,
        Some(at) => now_ns - at >= PROGRESS_THROTTLE_NS,
    }
}

fn exited_message(description: &str) -> (r: String)
    ensures
        r@ == exited_text(description@),
{
    let mut r = String::from_str("backend exited before announcing its URL (");
    r.append(description);
    r.append(")");
    r
}


fn not_ready_message(description: &str, total_ns: u64) -> (r: String)
    ensures
        r@ == not_ready_text(description@, total_ns),
{
    let mut r = String::from_str("backend did not become ready within ");
    push_decimal(&mut r, total_ns / 1_000_000_000);
    r.append("s (");
    r.append(description);
    r.append(")");
    r
}

/// The state of a backend start being watched: the output kept for an error
/// report, how many streams have closed, and when a line was last shown.
pub struct Startup {
    head: Vec<String>,
    tail: Vec<String>,
    dropped: usize,
    closed: usize,
    last_forwarded_ns: Option<u64>,
    budget: Budget,
    seen: Ghost<Seq<Seq<char>>>,
}

impl Startup {
    /// The head and tail kept are those of every line seen so far.
    #[verifier::type_invariant]
    spec fn keeps_both_ends(&self) -> bool {
        &&& views(self.head@) == kept_head(self.seen@)
        &&& views(self.tail@) == kept_tail(self.seen@)
        &&& self.dropped == dropped_count(self.seen@.len())
    }

    /// Every line of output seen so far, in order.
    pub closed spec fn lines_seen(&self) -> Seq<Seq<char>> {
        self.seen@
    }

    pub closed spec fn budget_of(&self) -> Budget {
        self.budget
    }

    pub closed spec fn streams_closed(&self) -> usize {
        self.closed
    }

    pub closed spec fn last_forwarded(&self) -> Option<u64> {
        self.last_forwarded_ns
    }

    /// Start watching under `budget`, nothing seen yet.
    pub fn new(budget: Budget) -> (s: Self)
        ensures
            s.lines_seen() == Seq::<Seq<char>>::empty(),
            s.budget_of() == budget,
            s.streams_closed() == 0,
            s.last_forwarded() is None,
    {
        let head: Vec<String> = Vec::new();
        let tail: Vec<String> = Vec::new();
        assert(views(head@) =~= kept_head(Seq::empty()));
        assert(views(tail@) =~= kept_tail(Seq::empty()));
        Startup {
            head,
            tail,
            dropped: 0,
            closed: 0,
            last_forwarded_ns: None,
            budget,
            seen: Ghost(Seq::empty()),
        }
    }

    /// The idle budget: how long to wait for the next event.
    pub fn idle_ns(&self) -> (r: u64)
        ensures
            r == self.budget_of().idle_ns,
    {
        self.budget.idle_ns
    }

    /// The verdict when nothing ended the start: give up once past the total budget.
    pub open spec fn deadline_verdict(&self, now_ns: u64, description: Seq<char>) -> Option<Result<Seq<char>, Seq<char>>> {
        if now_ns > self.budget_of().total_ns {
            Some(Err(not_ready_text(description, self.budget_of().total_ns)))
        } else {
            None
        }
    }

    fn check_deadline(&self, now_ns: u64, description: &str) -> (v: Verdict)
        ensures
            verdict_view(v) == self.deadline_verdict(now_ns, description@),
    {
        if now_ns > self.budget.total_ns {
            Verdict::Failed(not_ready_message(description, self.budget.total_ns))
        } else {
            Verdict::Waiting
        }
    }

    /// React to what waiting produced at `now_ns` (nanoseconds since the
    /// start). `description` names the command for error messages.
    ///
    /// The URL ends the start; a line is kept (and handed out to be shown,
    /// when the throttle allows; the caller reports with `shown` when it is
    /// done showing it); the second stream to close and the loss of both
    /// readers each fail it; a silence as long as the idle budget fails it as
    /// not ready within that budget; and after a line or the first close the
    /// start fails once the total budget has passed.
    pub fn on_wake(&mut self, wake: Wake, now_ns: u64, description: &str) -> (r: Reaction)
        ensures
            final(self).budget_of() == old(self).budget_of(),
            match wake {
                Wake::Event(Event::Url(u)) => {
                    &&& verdict_view(r.verdict) == Some(Ok::<Seq<char>, Seq<char>>(u@))
                    &&& r.forward is None
                    &&& final(self).lines_seen() == old(self).lines_seen()
                    &&& final(self).streams_closed() == old(self).streams_closed()
                    &&& final(self).last_forwarded() == old(self).last_forwarded()
                },
                Wake::Event(Event::Line(l)) => {
                    &&& final(self).lines_seen() == old(self).lines_seen().push(l@)
                    &&& final(self).streams_closed() == old(self).streams_closed()
                    &&& final(self).last_forwarded() == old(self).last_forwarded()
                    &&& if forward_due(old(self).last_forwarded(), now_ns) {
                        r.forward matches Some(f) && f@ == l@
                    } else {
                        r.forward is None
                    }
                    &&& verdict_view(r.verdict) == old(self).deadline_verdict(now_ns, description@)
                    &&& (r.verdict is Waiting <==> now_ns <= old(self).budget_of().total_ns)
                },
                Wake::Event(Event::Closed) => {
                    &&& final(self).lines_seen() == old(self).lines_seen()
                    &&& final(self).streams_closed() == (if old(self).streams_closed() == usize::MAX {
                        usize::MAX
                    } else {
                        (old(self).streams_closed() + 1) as usize
                    })
                    &&& final(self).last_forwarded() == old(self).last_forwarded()
                    &&& r.forward is None
                    &&& verdict_view(r.verdict) == if final(self).streams_closed() == 2 {
                        Some(Err::<Seq<char>, Seq<char>>(exited_text(description@)))
                    } else {
                        old(self).deadline_verdict(now_ns, description@)
                    }
                    &&& final(self).streams_closed() != 2 ==> (r.verdict is Waiting <==> now_ns
                        <= old(self).budget_of().total_ns)
                },
                Wake::TimedOut => {
                    &&& final(self).lines_seen() == old(self).lines_seen()
                    &&& final(self).streams_closed() == old(self).streams_closed()
                    &&& final(self).last_forwarded() == old(self).last_forwarded()
                    &&& r.forward is None
                    &&& verdict_view(r.verdict) == Some(
                        Err::<Seq<char>, Seq<char>>(not_ready_text(description@, old(self).budget_of().idle_ns)),
                    )
                },
                Wake::Disconnected => {
                    &&& final(self).lines_seen() == old(self).lines_seen()
                    &&& final(self).streams_closed() == old(self).streams_closed()
                    &&& final(self).last_forwarded() == old(self).last_forwarded()
                    &&& r.forward is None
                    &&& verdict_view(r.verdict) == Some(Err::<Seq<char>, Seq<char>>(exited_text(description@)))
                },
            },
    {
        match wake {
            Wake::Event(Event::Url(u)) => Reaction { forward: None, verdict: Verdict::Ready(u) },
            Wake::Event(Event::Line(line)) => {
                let due = match self.last_forwarded_ns {
                    None => true,
                    Some(at) => now_ns >= at && now_ns - at >= PROGRESS_THROTTLE_NS,
                };
                let forward = if due {
                    Some(line.clone())
                } else {
                    None
                };
                let verdict = self.check_deadline(now_ns, description);
                self.record_line(line);
                Reaction { forward, verdict }
            },
            Wake::Event(Event::Closed) => {
                self.count_close();
                if self.closed == 2 {
                    Reaction { forward: None, verdict: Verdict::Failed(exited_message(description)) }
                } else {
                    Reaction { forward: None, verdict: self.check_deadline(now_ns, description) }
                }
            },
            Wake::TimedOut => Reaction {
                forward: None,
                verdict: Verdict::Failed(not_ready_message(description, self.budget.idle_ns)),
            },
            Wake::Disconnected => Reaction {
                forward: None,
                verdict: Verdict::Failed(exited_message(description)),
            },
        }
    }

    /// Note that a line handed out by `on_wake` finished showing at
    /// `now_ns`: the throttle gap runs from here.
    pub fn shown(&mut self, now_ns: u64)
        ensures
            final(self).lines_seen() == old(self).lines_seen(),
            final(self).streams_closed() == old(self).streams_closed(),
            final(self).budget_of() == old(self).budget_of(),
            final(self).last_forwarded() == Some(now_ns),
    {
        proof {
            use_type_invariant(&*self);
        }
        self.last_forwarded_ns = Some(now_ns);
    }

    fn count_close(&mut self)
        ensures
            final(self).lines_seen() == old(self).lines_seen(),
            final(self).budget_of() == old(self).budget_of(),
            final(self).last_forwarded() == old(self).last_forwarded(),
            final(self).streams_closed() == (if old(self).streams_closed() == usize::MAX {
                usize::MAX
            } else {
                (old(self).streams_closed() + 1) as usize
            }),
    {
        proof {
            use_type_invariant(&*self);
        }
        self.closed = self.closed.saturating_add(1);
    }

    /// Keep `line`: in the head while that has room, else at the end of the
    /// tail, letting the tail's oldest line go when the tail is full.
    fn record_line(&mut self, line: String)
        ensures
            final(self).lines_seen() == old(self).lines_seen().push(line@),
            final(self).streams_closed() == old(self).streams_closed(),
            final(self).budget_of() == old(self).budget_of(),
            final(self).last_forwarded() == old(self).last_forwarded(),
    {
        proof {
            use_type_invariant(&*self);
        }
        let no_head: Vec<String> = Vec::new();
        let no_tail: Vec<String> = Vec::new();
        assert(views(no_head@) =~= kept_head(Seq::empty()));
        assert(views(no_tail@) =~= kept_tail(Seq::empty()));
        let mut emptied = Startup {
            head: no_head,
            tail: no_tail,
            dropped: 0,
            closed: self.closed,
            last_forwarded_ns: self.last_forwarded_ns,
            budget: self.budget,
            seen: Ghost(Seq::empty()),
        };
        std::mem::swap(self, &mut emptied);
        let Startup { mut head, mut tail, mut dropped, closed, last_forwarded_ns, budget, seen } =
            emptied;
        let ghost old_seen = seen@;
        let ghost new_seen = old_seen.push(line@);
        let ghost n = old_seen.len();
        let ghost old_head = head@;
        let ghost old_tail = tail@;
        proof {
            assert(views(old_head).len() == old_head.len());
            assert(views(old_tail).len() == old_tail.len());
            if n > HEAD_LINES {
                assert(old_head.len() == HEAD_LINES);
            }
            assert forall|i: int| 0 <= i < old_head.len() implies #[trigger] old_head[i]@ == kept_head(old_seen)[i] by {
                assert(views(old_head)[i] == old_head[i]@);
            }
            assert forall|i: int| 0 <= i < old_tail.len() implies #[trigger] old_tail[i]@ == kept_tail(old_seen)[i] by {
                assert(views(old_tail)[i] == old_tail[i]@);
            }
        }
        if head.len() < HEAD_LINES {
            head.push(line);
            proof {
                assert(views(head@) =~= kept_head(new_seen));
                assert(views(tail@) =~= kept_tail(new_seen));
            }
        } else {
            if tail.len() == TAIL_LINES {
                tail.remove(0);
                dropped = dropped.saturating_add(1);
            }
            tail.push(line);
            proof {
                assert(views(head@) =~= kept_head(new_seen));
                assert(views(tail@) =~= kept_tail(new_seen));
            }
        }
        *self = Startup {
            head,
            tail,
            dropped,
            closed,
            last_forwarded_ns,
            budget,
            seen: Ghost(new_seen),
        };
    }

    /// The error reported when the start fails for `reason`: the reason,
    /// then the kept output lines, each indented on a line of its own.
    pub fn report(&self, reason: &str) -> (r: String)
        ensures
            r@ == failure_text(reason@, self.lines_seen()),
    {
        proof {
            use_type_invariant(self);
        }
        let mut lines: Vec<String> = Vec::new();
        let mut i: usize = 0;
        while i < self.head.len()
            invariant
                i <= self.head@.len(),
                lines@.len() == i,
                views(lines@) == views(self.head@).take(i as int),
            decreases self.head@.len() - i,
        {
            let ghost before = lines@;
            lines.push(self.head[i].clone());
            proof {
                assert(lines@[i as int] == self.head@[i as int]);
                assert forall|k: int| 0 <= k < i implies lines@[k]@ == self.head@[k]@ by {
                    assert(lines@[k] == before[k]);
                    assert(views(before)[k] == before[k]@);
                }
            }
            i = i + 1;
            assert(views(lines@) =~= views(self.head@).take(i as int));
        }
        assert(views(self.head@).take(self.head@.len() as int) =~= views(self.head@));
        let ghost before_marker = views(lines@);
        if self.dropped > 0 {
            let mut m = String::from_str("\u{2026} ");
            push_decimal(&mut m, self.dropped as u64);
            m.append(" more lines \u{2026}");
            lines.push(m);
        }
        let ghost middle = views(lines@);
        assert(middle.len() == lines@.len());
        let mut j: usize = 0;
        while j < self.tail.len()
            invariant
                j <= self.tail@.len(),
                lines@.len() == middle.len() + j,
                views(lines@) == middle + views(self.tail@).take(j as int),
            decreases self.tail@.len() - j,
        {
            let ghost before = lines@;
            lines.push(self.tail[j].clone());
            proof {
                let target = middle + views(self.tail@).take(j + 1);
                assert(lines@[before.len() as int] == self.tail@[j as int]);
                assert forall|k: int| 0 <= k < lines@.len() implies #[trigger] views(lines@)[k] == target[k] by {
                    if k < before.len() {
                        assert(lines@[k] == before[k]);
                        assert(views(before)[k] == (middle + views(self.tail@).take(j as int))[k]);
                    } else {
                        assert(views(self.tail@)[j as int] == self.tail@[j as int]@);
                    }
                }
                assert(views(lines@) =~= target);
            }
            j = j + 1;
        }
        assert(views(self.tail@).take(self.tail@.len() as int) =~= views(self.tail@));
        proof {
            if self.dropped > 0 {
                assert(middle =~= kept_head(self.seen@) + seq![omitted_text(self.dropped as nat)]);
            } else {
                assert(middle =~= kept_head(self.seen@) + Seq::<Seq<char>>::empty());
            }
            assert(views(lines@) =~= report_lines(self.seen@));
        }
        let mut r = String::from_str(reason);
        if lines.len() == 0 {
            return r;
        }
        r.append("\n  ");
        push_joined(&mut r, &lines, "\n  ");
        r
    }
}

// ---------------------------------------------------------------------------
// Laws

/// An announced URL is the loopback prefix followed by a non-empty run of
/// ASCII digits, all taken from the line.
pub proof fn lemma_announced_url_shape(line: Seq<char>)
    ensures
        announced_url(line) matches Some(u) ==> {
            &&& starts_with(u, url_prefix())
            &&& u.len() > url_prefix().len()
            &&& forall|k: int| url_prefix().len() <= k < u.len() ==> is_ascii_digit(#[trigger] u[k])
            &&& exists|i: int| #[trigger] occurs_at(line, u, i)
        },
{
    if let Some(u) = announced_url(line) {
        let i = find(line, url_prefix()).unwrap();
        lemma_find_occurs(line, url_prefix(), 0);
        let rest = line.skip(i + url_prefix().len());
        let d = leading_digits(rest);
        lemma_leading_digits_prefix(rest);
        assert(u.take(url_prefix().len() as int) =~= url_prefix());
        assert forall|k: int| url_prefix().len() <= k < u.len() implies is_ascii_digit(#[trigger] u[k]) by {
            assert(u[k] == d[k - url_prefix().len()]);
        }
        assert(line.subrange(i, i + u.len()) =~= u) by {
            assert forall|k: int| 0 <= k < u.len() implies line.subrange(i, i + u.len())[k] == u[k] by {
                if k < url_prefix().len() {
                    assert(line.subrange(i, i + url_prefix().len())[k] == url_prefix()[k]);
                } else {
                    assert(d[k - url_prefix().len()] == rest[k - url_prefix().len()]);
                }
            }
        }
        assert(occurs_at(line, u, i));
    }
}

proof fn lemma_find_occurs(s: Seq<char>, pat: Seq<char>, i: int)
    ensures
        first_match_from(s, pat, i) matches Some(j) ==> occurs_at(s, pat, j) && i <= j,
    decreases s.len() - i,
{
    if !(i < 0 || i + pat.len() > s.len()) && !occurs_at(s, pat, i) && i < s.len() {
        lemma_find_occurs(s, pat, i + 1);
    }
}

proof fn lemma_leading_digits_prefix(s: Seq<char>)
    ensures
        leading_digits(s).len() <= s.len(),
        forall|k: int| 0 <= k < leading_digits(s).len() ==> #[trigger] leading_digits(s)[k] == s[k]
            && is_ascii_digit(s[k]),
    decreases s.len(),
{
    if s.len() > 0 && is_ascii_digit(s[0]) {
        lemma_leading_digits_prefix(s.drop_first());
        let t = leading_digits(s.drop_first());
        assert forall|k: int| 0 <= k < leading_digits(s).len() implies #[trigger] leading_digits(s)[k]
            == s[k] && is_ascii_digit(s[k]) by {
            if k > 0 {
                assert(leading_digits(s)[k] == t[k - 1]);
            }
        }
    }
}

/// A failed start's report loses nothing from a short output; from a long
/// one it keeps the first `HEAD_LINES` and the last `TAIL_LINES` lines, with
/// one line between them counting the lines left out.
pub proof fn lemma_report_keeps_both_ends(seen: Seq<Seq<char>>)
    ensures
        seen.len() <= HEAD_LINES + TAIL_LINES ==> report_lines(seen) == seen,
        seen.len() > HEAD_LINES + TAIL_LINES && seen.len() - (HEAD_LINES + TAIL_LINES) <= usize::MAX
            ==> report_lines(seen) == seen.take(HEAD_LINES as int) + seq![
            omitted_text((seen.len() - (HEAD_LINES + TAIL_LINES)) as nat),
        ] + seen.skip(seen.len() - TAIL_LINES),
{
    if seen.len() <= HEAD_LINES {
        assert(report_lines(seen) =~= seen);
    } else if seen.len() <= HEAD_LINES + TAIL_LINES {
        assert(report_lines(seen) =~= seen);
    } else if seen.len() - (HEAD_LINES + TAIL_LINES) <= usize::MAX {
        assert(report_lines(seen) =~= seen.take(HEAD_LINES as int) + seq![
            omitted_text((seen.len() - (HEAD_LINES + TAIL_LINES)) as nat),
        ] + seen.skip(seen.len() - TAIL_LINES));
    }
}

proof fn lemma_decimal_digits(n: nat)
    ensures
        decimal(n).len() > 0,
        forall|k: int| 0 <= k < decimal(n).len() ==> is_ascii_digit(#[trigger] decimal(n)[k]),
        digits_value(decimal(n)) == n,
    decreases n,
{
    if n < 10 {
        let c = crate::text::digit_char(n);
        assert(c as int == 48 + n);
        assert(decimal(n) =~= seq![c]);
        assert(decimal(n).drop_last() =~= Seq::<char>::empty());
        assert(digits_value(decimal(n).drop_last()) == 0);
        assert(digits_value(decimal(n)) == digits_value(decimal(n).drop_last()) * 10 + (decimal(
            n,
        ).last() as nat - 48) as nat);
    } else {
        lemma_decimal_digits(n / 10);
        let d = decimal(n);
        let c = crate::text::digit_char(n % 10);
        assert(c as int == 48 + n % 10);
        assert(d.drop_last() =~= decimal(n / 10));
        assert(d.last() == c);
        assert(digits_value(d) == digits_value(d.drop_last()) * 10 + (d.last() as nat - 48) as nat);
        assert(digits_value(d) == (n / 10) * 10 + n % 10);
        assert forall|k: int| 0 <= k < d.len() implies is_ascii_digit(#[trigger] d[k]) by {
            if k < d.len() - 1 {
                assert(d[k] == decimal(n / 10)[k]);
            }
        }
    }
}

proof fn lemma_all_digits_lead(s: Seq<char>)
    requires
        forall|k: int| 0 <= k < s.len() ==> is_ascii_digit(#[trigger] s[k]),
    ensures
        leading_digits(s) == s,
    decreases s.len(),
{
    if s.len() > 0 {
        assert forall|k: int| 0 <= k < s.drop_first().len() implies is_ascii_digit(
            #[trigger] s.drop_first()[k],
        ) by {
            assert(s.drop_first()[k] == s[k + 1]);
        }
        lemma_all_digits_lead(s.drop_first());
        assert(seq![s[0]] + s.drop_first() =~= s);
    }
}

proof fn lemma_dot_first_from(s: Seq<char>, k: int, i: int)
    requires
        0 <= i <= k < s.len(),
        s[k] == '.',
        forall|j: int| 0 <= j < k ==> s[j] != '.',
    ensures
        first_match_from(s, seq!['.'], i) == Some(k),
    decreases k - i,
{
    if i < k {
        assert(!occurs_at(s, seq!['.'], i)) by {
            if occurs_at(s, seq!['.'], i) {
                assert(s.subrange(i, i + 1)[0] == s[i]);
            }
        }
        lemma_dot_first_from(s, k, i + 1);
    } else {
        assert(s.subrange(k, k + 1) =~= seq!['.']);
    }
}

proof fn lemma_no_dot_from(s: Seq<char>, i: int)
    requires
        0 <= i,
        forall|j: int| 0 <= j < s.len() ==> s[j] != '.',
    ensures
        first_match_from(s, seq!['.'], i) is None,
    decreases s.len() - i,
{
    if i + 1 <= s.len() {
        assert(!occurs_at(s, seq!['.'], i)) by {
            if occurs_at(s, seq!['.'], i) {
                assert(s.subrange(i, i + 1)[0] == s[i]);
            }
        }
        lemma_no_dot_from(s, i + 1);
    }
}

proof fn lemma_field_of_digits(n: u32, rest: Seq<char>)
    ensures
        ({
            let s = decimal(n as nat) + rest;
            &&& !rest.contains('.') ==> dot_field(s, 0) == Some(s)
            &&& (rest.len() > 0 && rest[0] == '.') ==> find(s, seq!['.']) == Some(
                decimal(n as nat).len() as int,
            )
        }),
        field_number(Some(decimal(n as nat))) == n,
{
    let d = decimal(n as nat);
    let s = d + rest;
    lemma_decimal_digits(n as nat);
    lemma_all_digits_lead(d);
    if !rest.contains('.') {
        assert forall|j: int| 0 <= j < s.len() implies s[j] != '.' by {
            if j < d.len() {
                assert(is_ascii_digit(d[j]));
            } else {
                assert(s[j] == rest[j - d.len()]);
            }
        }
        lemma_no_dot_from(s, 0);
    }
    if rest.len() > 0 && rest[0] == '.' {
        assert forall|j: int| 0 <= j < d.len() implies s[j] != '.' by {
            assert(is_ascii_digit(d[j]));
        }
        lemma_dot_first_from(s, d.len() as int, 0);
    }
}

proof fn lemma_dot_split(n: u32, r: Seq<char>)
    ensures
        dot_field(decimal(n as nat) + seq!['.'] + r, 0) == Some(decimal(n as nat)),
        dot_field(decimal(n as nat) + seq!['.'] + r, 1) == dot_field(r, 0),
        dot_field(decimal(n as nat) + seq!['.'] + r, 2) == dot_field(r, 1),
        field_number(Some(decimal(n as nat))) == n,
{
    let a = decimal(n as nat);
    let s = a + seq!['.'] + r;
    lemma_field_of_digits(n, seq!['.'] + r);
    assert(a + (seq!['.'] + r) =~= s);
    assert(s.take(a.len() as int) =~= a);
    assert(s.skip(a.len() + 1int) =~= r);
}

proof fn lemma_last_field(n: u32)
    ensures
        dot_field(decimal(n as nat), 0) == Some(decimal(n as nat)),
        field_number(Some(decimal(n as nat))) == n,
{
    let c = decimal(n as nat);
    lemma_decimal_digits(n as nat);
    assert(!Seq::<char>::empty().contains('.'));
    lemma_field_of_digits(n, Seq::empty());
    assert(c + Seq::<char>::empty() =~= c);
}

/// A version directory named `v<x>.<y>.<z>` (or `<x>.<y>.<z>`), the numbers
/// written in decimal, stands for the version `(x, y, z)`: every field is
/// read whole, whatever its number of digits.
pub proof fn lemma_version_reads_its_numbers(x: u32, y: u32, z: u32)
    ensures
        version_of(decimal(x as nat) + seq!['.'] + decimal(y as nat) + seq!['.'] + decimal(z as nat))
            == (x, y, z),
        version_of(seq!['v'] + decimal(x as nat) + seq!['.'] + decimal(y as nat) + seq!['.']
            + decimal(z as nat)) == (x, y, z),
{
    let a = decimal(x as nat);
    let b = decimal(y as nat);
    let c = decimal(z as nat);
    let bc = b + seq!['.'] + c;
    let s = a + seq!['.'] + bc;
    lemma_decimal_digits(x as nat);
    lemma_last_field(z);
    lemma_dot_split(y, c);
    lemma_dot_split(x, bc);
    assert(dot_field(s, 0) == Some(a));
    assert(dot_field(s, 1) == Some(b));
    assert(dot_field(s, 2) == Some(c));
    assert(!crate::text::in_class(CharClass::Is('v'), s[0])) by {
        assert(s[0] == a[0]);
        assert(is_ascii_digit(a[0]));
    }
    assert(trim_start(s, CharClass::Is('v')) == s);
    let vs = seq!['v'] + s;
    assert(vs.drop_first() =~= s);
    assert(trim_start(vs, CharClass::Is('v')) == trim_start(s, CharClass::Is('v')));
    assert(seq!['v'] + a + seq!['.'] + b + seq!['.'] + c =~= vs);
    assert(a + seq!['.'] + b + seq!['.'] + c =~= s);
}

/// Once output is flowing, only the total budget ends a start: its
/// deadline passes exactly when the time exceeds the budget's total, and
/// the failure names that total. A bootstrap that keeps printing may run its
/// full 45 minutes, long past its 150 s idle budget.
pub proof fn lemma_deadline_is_the_total_budget(s: Startup, now_ns: u64, description: Seq<char>)
    ensures
        s.deadline_verdict(now_ns, description) is None <==> now_ns <= s.budget_of().total_ns,
        now_ns > s.budget_of().total_ns ==> s.deadline_verdict(now_ns, description) == Some(
            Err::<Seq<char>, Seq<char>>(
                "backend did not become ready within "@ + decimal(
                    (s.budget_of().total_ns / 1_000_000_000) as nat,
                ) + "s ("@ + description + ")"@,
            ),
        ),
        s.budget_of() == (Budget {
            idle_ns: BOOTSTRAP_IDLE_TIMEOUT_NS,
            total_ns: BOOTSTRAP_TOTAL_TIMEOUT_NS,
        }) && now_ns <= 2_700_000_000_000 ==> s.deadline_verdict(now_ns, description) is None,
{
}

/// A line is shown only when at least `PROGRESS_THROTTLE_NS` have passed
/// since the last line shown, so a burst of output is thinned out.
pub proof fn lemma_shown_lines_are_spaced(last_ns: u64, now_ns: u64)
    requires
        forward_due(Some(last_ns), now_ns),
    ensures
        now_ns >= last_ns + PROGRESS_THROTTLE_NS,
{
}

/// A path that does not start with the extended-length prefix is handed on
/// exactly as it is.
pub proof fn lemma_plain_paths_untouched(path: Seq<char>)
    requires
        !starts_with(path, verbatim_marker()),
    ensures
        without_verbatim_prefix(path) == path,
{
}

/// Stripping never lengthens a path, and changes only paths that carry the
/// extended-length prefix.
pub proof fn lemma_stripping_never_lengthens(path: Seq<char>)
    ensures
        without_verbatim_prefix(path).len() <= path.len(),
        without_verbatim_prefix(path) != path ==> starts_with(path, verbatim_marker()),
{
}

/// A missing or blank `DSH_DESKTOP_PORT` asks for any free port, `0`.
pub proof fn lemma_blank_port_is_zero(raw: Option<Seq<char>>)
    requires
        raw matches Some(v) ==> forall|k: int| 0 <= k < v.len() ==> crate::text::is_white_space(
            #[trigger] v[k],
        ),
    ensures
        port_value(raw) == seq!['0'],
{
    if let Some(v) = raw {
        crate::text::lemma_blank_trims_to_nothing(v);
    }
}

} // verus!
