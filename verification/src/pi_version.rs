//! The Pi host version check at start-up: reading a semantic version out of
//! `pi --version`, comparing it with the minimum supported one, and the
//! install hint for the platform.
use crate::path::{file_name_spec, last_dot};
use crate::text::{chars_of, decimal, is_ws, push_char, push_decimal, push_str, string_of_range, to_owned, trim, trim_str};
use vstd::prelude::*;

verus! {

/// Minimum supported Pi CLI version.
pub const MIN_PI_VERSION: &'static str = "0.80.10";

/// The install command for Unix hosts.
pub const INSTALL_UNIX: &'static str = "curl -fsSL https://pi.dev/install.sh | sh";

/// The install command for Windows hosts.
pub const INSTALL_WINDOWS: &'static str = "powershell -c \"irm https://pi.dev/install.ps1 | iex\"";

/// The install command through npm.
pub const INSTALL_NPM: &'static str = "npm i -g @earendil-works/pi-coding-agent";

/// A semantic version, as its parts.
#[derive(Debug, Clone)]
pub struct PiVersion {
    pub major: u64,
    pub minor: u64,
    pub patch: u64,
    /// Pre-release identifiers (empty for a release).
    pub pre: String,
    /// Build metadata (often empty).
    pub build: String,
}

/// The parts of a version: `(major, minor, patch, pre, build)`.
pub open spec fn version_parts(v: PiVersion) -> (u64, u64, u64, Seq<char>, Seq<char>) {
    (v.major, v.minor, v.patch, v.pre@, v.build@)
}

/// What `semver::Version::parse` makes of `text`: its parts when `text` is a
/// valid semantic version, else nothing.
pub uninterp spec fn semver_parsed(text: Seq<char>) -> Option<(u64, u64, u64, Seq<char>, Seq<char>)>;

/// `semver::Version::parse`, with the version taken apart.  The parts are
/// what the crate parsed; nothing is claimed about which texts it accepts.
#[verifier::external_body]
fn semver_parse(text: &str) -> (r: Option<PiVersion>)
    ensures
        match r {
            Some(v) => semver_parsed(text@) == Some(version_parts(v)),
            None => semver_parsed(text@) is None,
        },
{
    match semver::Version::parse(text) {
        Ok(v) => Some(
            PiVersion {
                major: v.major,
                minor: v.minor,
                patch: v.patch,
                pre: v.pre.as_str().to_string(),
                build: v.build.as_str().to_string(),
            },
        ),
        Err(_) => None,
    }
}

/// The text of a version: `major.minor.patch`, then `-pre` and `+build`
/// when present (semver's `Display`).
pub open spec fn version_text(p: (u64, u64, u64, Seq<char>, Seq<char>)) -> Seq<char> {
    decimal(p.0 as nat) + "."@ + decimal(p.1 as nat) + "."@ + decimal(p.2 as nat) + (if p.3.len() > 0 {
        "-"@ + p.3
    } else {
        Seq::empty()
    }) + (if p.4.len() > 0 {
        "+"@ + p.4
    } else {
        Seq::empty()
    })
}

impl PiVersion {
    /// The version as text.
    pub fn text(&self) -> (r: String)
        ensures
            r@ == version_text(version_parts(*self)),
    {
        let mut out = String::new();
        push_decimal(&mut out, self.major);
        push_str(&mut out, ".");
        push_decimal(&mut out, self.minor);
        push_str(&mut out, ".");
        push_decimal(&mut out, self.patch);
        if !self.pre.as_str().is_empty() {
            push_str(&mut out, "-");
            push_str(&mut out, self.pre.as_str());
        }
        if !self.build.as_str().is_empty() {
            push_str(&mut out, "+");
            push_str(&mut out, self.build.as_str());
        }
        out
    }
}

/// The minimum supported version, `0.80.10`.
pub fn min_pi_version() -> (v: PiVersion)
    ensures
        version_parts(v) == (0u64, 80u64, 10u64, Seq::<char>::empty(), Seq::<char>::empty()),
{
    PiVersion { major: 0, minor: 80, patch: 10, pre: String::new(), build: String::new() }
}

/// Whether a version is at least the release `0.80.10` in semver order:
/// a higher `major.minor.patch`, or the same one as a release (any
/// pre-release of it is older; build metadata only orders upwards).
pub open spec fn meets_minimum_spec(p: (u64, u64, u64, Seq<char>, Seq<char>)) -> bool {
    ||| p.0 > 0
    ||| (p.0 == 0 && p.1 > 80)
    ||| (p.0 == 0 && p.1 == 80 && p.2 > 10)
    ||| (p.0 == 0 && p.1 == 80 && p.2 == 10 && p.3.len() == 0)
}

/// Whether `v` is at least [`MIN_PI_VERSION`].
pub fn meets_minimum(v: &PiVersion) -> (r: bool)
    ensures
        r == meets_minimum_spec(version_parts(*v)),
{
    v.major > 0 || (v.major == 0 && v.minor > 80) || (v.major == 0 && v.minor == 80 && v.patch > 10)
        || (v.major == 0 && v.minor == 80 && v.patch == 10 && v.pre.as_str().is_empty())
}

// ─── Reading the version out of `pi --version` ───────────────────────────────

/// A character that separates tokens of version output.
pub open spec fn version_sep(c: char) -> bool {
    is_ws(c) || c == '/' || c == 'v' || c == 'V'
}

/// Splitting version output at separators as a left-to-right scan (empty
/// tokens kept).
pub open spec fn version_split_state(s: Seq<char>) -> (Seq<Seq<char>>, Seq<char>)
    decreases s.len(),
{
    if s.len() == 0 {
        (Seq::empty(), Seq::empty())
    } else {
        let (done, cur) = version_split_state(s.drop_last());
        if version_sep(s.last()) {
            (done.push(cur), Seq::empty())
        } else {
            (done, cur.push(s.last()))
        }
    }
}

/// The tokens of version output.
pub open spec fn version_tokens(s: Seq<char>) -> Seq<Seq<char>> {
    let (done, cur) = version_split_state(s);
    done.push(cur)
}

/// A punctuation character trimmed from tokens.
pub open spec fn is_punct(c: char) -> bool {
    c == ',' || c == ';'
}

/// `s` without leading `,` and `;`.
pub open spec fn strip_front_punct(s: Seq<char>) -> Seq<char>
    decreases s.len(),
{
    if s.len() > 0 && is_punct(s[0]) {
        strip_front_punct(s.drop_first())
    } else {
        s
    }
}

/// `s` without trailing `,` and `;`.
pub open spec fn strip_back_punct(s: Seq<char>) -> Seq<char>
    decreases s.len(),
{
    if s.len() > 0 && is_punct(s.last()) {
        strip_back_punct(s.drop_last())
    } else {
        s
    }
}

/// A token trimmed of whitespace and of surrounding `,` / `;`.
pub open spec fn candidate(token: Seq<char>) -> Seq<char> {
    strip_back_punct(strip_front_punct(trim(token)))
}

/// A character that may belong to a version number.
pub open spec fn version_char(c: char) -> bool {
    ('0' <= c && c <= '9') || c == '.' || c == '-' || c == '+'
}

/// Length of the longest prefix of `s` made of version characters.
pub open spec fn version_prefix_len(s: Seq<char>) -> nat
    decreases s.len(),
{
    if s.len() > 0 && version_char(s[0]) {
        1 + version_prefix_len(s.drop_first())
    } else {
        0
    }
}

/// The version a token gives: the candidate itself when semver accepts it,
/// else its leading run of version characters when that is accepted.
pub open spec fn token_version(token: Seq<char>) -> Option<(u64, u64, u64, Seq<char>, Seq<char>)> {
    let c = candidate(token);
    if c.len() == 0 {
        None
    } else {
        match semver_parsed(c) {
            Some(v) => Some(v),
            None => {
                let k = version_prefix_len(c);
                if k > 0 {
                    semver_parsed(c.take(k as int))
                } else {
                    None
                }
            },
        }
    }
}

/// The version of the first token that gives one.
pub open spec fn first_version(tokens: Seq<Seq<char>>) -> Option<(u64, u64, u64, Seq<char>, Seq<char>)>
    decreases tokens.len(),
{
    if tokens.len() == 0 {
        None
    } else {
        match token_version(tokens[0]) {
            Some(v) => Some(v),
            None => first_version(tokens.drop_first()),
        }
    }
}

proof fn lemma_first_version_append(a: Seq<Seq<char>>, b: Seq<Seq<char>>)
    requires
        first_version(a) is None,
    ensures
        first_version(a + b) == first_version(b),
    decreases a.len(),
{
    if a.len() > 0 {
        lemma_first_version_append(a.drop_first(), b);
        assert((a + b).drop_first() =~= a.drop_first() + b);
    } else {
        assert(a + b =~= b);
    }
}

proof fn lemma_strip_front_punct(s: Seq<char>, k: int)
    requires
        0 <= k <= s.len(),
        forall|j: int| 0 <= j < k ==> is_punct(s[j]),
        k == s.len() || !is_punct(s[k]),
    ensures
        strip_front_punct(s) == s.skip(k),
    decreases k,
{
    if k > 0 {
        lemma_strip_front_punct(s.drop_first(), k - 1);
        assert(s.drop_first().skip(k - 1) =~= s.skip(k));
    } else {
        assert(s.skip(0) =~= s);
    }
}

proof fn lemma_strip_back_punct(s: Seq<char>, k: int)
    requires
        0 <= k <= s.len(),
        forall|j: int| k <= j < s.len() ==> is_punct(s[j]),
        k == 0 || !is_punct(s[k - 1]),
    ensures
        strip_back_punct(s) == s.take(k),
    decreases s.len() - k,
{
    if k < s.len() {
        lemma_strip_back_punct(s.drop_last(), k);
        assert(s.drop_last().take(k) =~= s.take(k));
    } else {
        assert(s.take(k) =~= s);
    }
}

proof fn lemma_version_prefix(s: Seq<char>, k: int)
    requires
        0 <= k <= s.len(),
        forall|j: int| 0 <= j < k ==> version_char(s[j]),
        k == s.len() || !version_char(s[k]),
    ensures
        version_prefix_len(s) == k,
    decreases k,
{
    if k > 0 {
        lemma_version_prefix(s.drop_first(), k - 1);
    }
}

/// The candidate of a token, as a string.
fn candidate_exec(token: &str) -> (r: String)
    ensures
        r@ == candidate(token@),
{
    let t = trim_str(token);
    let v = chars_of(t.as_str());
    let mut lo: usize = 0;
    while lo < v.len() && (v[lo] == ',' || v[lo] == ';')
        invariant
            lo <= v.len(),
            forall|j: int| 0 <= j < lo ==> is_punct(v@[j]),
        decreases v.len() - lo,
    {
        lo = lo + 1;
    }
    proof {
        lemma_strip_front_punct(v@, lo as int);
    }
    let mut hi: usize = v.len();
    while hi > lo && (v[hi - 1] == ',' || v[hi - 1] == ';')
        invariant
            lo <= hi <= v.len(),
            forall|j: int| hi <= j < v.len() ==> is_punct(v@[j]),
        decreases hi,
    {
        hi = hi - 1;
    }
    proof {
        let w = v@.skip(lo as int);
        assert forall|j: int| hi - lo <= j < w.len() implies is_punct(w[j]) by {
            assert(w[j] == v@[j + lo]);
        }
        if hi > lo {
            assert(w[hi - lo - 1] == v@[hi - 1]);
        }
        lemma_strip_back_punct(w, hi - lo);
        assert(w.take(hi - lo) =~= v@.subrange(lo as int, hi as int));
    }
    string_of_range(&v, lo, hi)
}

/// The version a single token gives.
fn token_version_exec(token: &str) -> (r: Option<PiVersion>)
    ensures
        match r {
            Some(v) => token_version(token@) == Some(version_parts(v)),
            None => token_version(token@) is None,
        },
{
    let c = candidate_exec(token);
    if c.as_str().is_empty() {
        return None;
    }
    match semver_parse(c.as_str()) {
        Some(v) => return Some(v),
        None => {},
    }
    let cv = chars_of(c.as_str());
    let mut end: usize = 0;
    while end < cv.len() && (('0' <= cv[end] && cv[end] <= '9') || cv[end] == '.' || cv[end] == '-'
        || cv[end] == '+')
        invariant
            end <= cv.len(),
            forall|j: int| 0 <= j < end ==> version_char(cv@[j]),
        decreases cv.len() - end,
    {
        end = end + 1;
    }
    proof {
        lemma_version_prefix(cv@, end as int);
    }
    if end > 0 {
        let prefix = string_of_range(&cv, 0, end);
        assert(cv@.subrange(0, end as int) =~= cv@.take(end as int));
        semver_parse(prefix.as_str())
    } else {
        None
    }
}

/// The first semantic version in `pi --version` output (`0.80.10`,
/// `pi 0.80.10`, `@earendil-works/pi-coding-agent/0.80.10`, …).
pub fn parse_pi_version(raw: &str) -> (r: Option<PiVersion>)
    ensures
        match r {
            Some(v) => first_version(version_tokens(raw@)) == Some(version_parts(v)),
            None => first_version(version_tokens(raw@)) is None,
        },
{
    let v = chars_of(raw);
    let mut tokens: Vec<String> = Vec::new();
    let mut cur: Vec<char> = Vec::new();
    let mut i: usize = 0;
    while i < v.len()
        invariant
            v@ == raw@,
            i <= v.len(),
            (tokens.deep_view(), cur@) == version_split_state(v@.take(i as int)),
        decreases v.len() - i,
    {
        let c = v[i];
        assert(v@.take(i + 1).drop_last() =~= v@.take(i as int));
        if crate::text::is_whitespace(c) || c == '/' || c == 'v' || c == 'V' {
            let t = crate::text::string_of(&cur);
            tokens.push(t);
            cur = Vec::new();
            assert(tokens.deep_view() =~= version_split_state(v@.take(i as int)).0.push(
                version_split_state(v@.take(i as int)).1,
            ));
            assert(cur@ =~= Seq::<char>::empty());
        } else {
            cur.push(c);
        }
        i = i + 1;
    }
    assert(v@.take(v.len() as int) =~= v@);
    let last = crate::text::string_of(&cur);
    tokens.push(last);
    let ghost all = tokens.deep_view();
    assert(all =~= version_tokens(raw@));
    let mut j: usize = 0;
    assert(first_version(Seq::<Seq<char>>::empty()) is None);
    while j < tokens.len()
        invariant
            j <= tokens.len(),
            all == tokens.deep_view(),
            all == version_tokens(raw@),
            first_version(all.take(j as int)) is None,
        decreases tokens.len() - j,
    {
        let ghost before = all.take(j as int);
        assert(all[j as int] == tokens@[j as int]@);
        assert(first_version(Seq::<Seq<char>>::empty()) is None);
        match token_version_exec(tokens[j].as_str()) {
            Some(found) => {
                proof {
                    assert(all.skip(j as int)[0] == all[j as int]);
                    assert(first_version(all.skip(j as int)) == Some(version_parts(found)));
                    lemma_first_version_append(before, all.skip(j as int));
                    assert(before + all.skip(j as int) =~= all);
                }
                return Some(found);
            },
            None => {},
        }
        proof {
            assert(all.take(j + 1) =~= before + seq![all[j as int]]);
            lemma_first_version_append(before, seq![all[j as int]]);
            assert(seq![all[j as int]].drop_first() =~= Seq::<Seq<char>>::empty());
        }
        j = j + 1;
    }
    assert(all.take(tokens.len() as int) =~= all);
    None
}

// ─── The host check ──────────────────────────────────────────────────────────

/// The outcome of probing the Pi executable.
#[derive(Debug, Clone)]
pub enum PiHostCheck {
    Compatible { version: PiVersion, program: String },
    TooOld { version: PiVersion, program: String },
    Missing { program: String, detail: String },
    Unparseable { program: String, raw: String },
}

/// Classify the probe of `program --version`: its standard output, or why
/// it could not be run.  A version below the minimum is too old; output
/// without a version is unparseable (kept trimmed for the message).
pub fn classify_pi_host(program: &str, probe: Result<String, String>) -> (r: PiHostCheck)
    ensures
        match probe {
            Err(detail) => r matches PiHostCheck::Missing { program: p, detail: d } && p@ == program@
                && d@ == detail@,
            Ok(out) => match first_version(version_tokens(out@)) {
                Some(parts) => if meets_minimum_spec(parts) {
                    r matches PiHostCheck::Compatible { version, program: p } && version_parts(version) == parts
                        && p@ == program@
                } else {
                    r matches PiHostCheck::TooOld { version, program: p } && version_parts(version)
                        == parts && p@ == program@
                },
                None => r matches PiHostCheck::Unparseable { program: p, raw } && p@ == program@
                    && raw@ == trim(out@),
            },
        },
{
    match probe {
        Err(detail) => PiHostCheck::Missing { program: to_owned(program), detail },
        Ok(out) => match parse_pi_version(out.as_str()) {
            Some(version) => if meets_minimum(&version) {
                PiHostCheck::Compatible { version, program: to_owned(program) }
            } else {
                PiHostCheck::TooOld { version, program: to_owned(program) }
            },
            None => PiHostCheck::Unparseable { program: to_owned(program), raw: trim_str(out.as_str()) },
        },
    }
}

/// The recommended install command on this kind of host.
pub fn install_command_for_host(windows: bool) -> (r: &'static str)
    ensures
        r@ == if windows { INSTALL_WINDOWS@ } else { INSTALL_UNIX@ },
{
    if windows {
        INSTALL_WINDOWS
    } else {
        INSTALL_UNIX
    }
}

/// Both platforms' install commands `(unix, windows)`.
pub fn both_install_commands() -> (r: (&'static str, &'static str))
    ensures
        r.0@ == INSTALL_UNIX@,
        r.1@ == INSTALL_WINDOWS@,
{
    (INSTALL_UNIX, INSTALL_WINDOWS)
}

/// `Path::extension` of a path: the part of its file name after the last
/// `.`, unless that dot starts the name.
pub open spec fn extension_spec(path: Seq<char>) -> Option<Seq<char>> {
    match file_name_spec(path) {
        Some(name) => match last_dot(name) {
            Some(i) => if i > 0 {
                Some(name.skip(i + 1))
            } else {
                None
            },
            None => None,
        },
        None => None,
    }
}

/// Whether `program` is a JavaScript file that must be run through Node
/// (`.js`, `.mjs` or `.cjs`).
pub open spec fn js_cli_spec(program: Seq<char>) -> bool {
    match extension_spec(program) {
        Some(e) => e == "js"@ || e == "mjs"@ || e == "cjs"@,
        None => false,
    }
}

fn extension_of(path: &str) -> (r: Option<String>)
    ensures
        match r {
            Some(e) => extension_spec(path@) == Some(e@),
            None => extension_spec(path@) is None,
        },
{
    match crate::path::file_name(path) {
        Some(name) => {
            let nv = chars_of(name.as_str());
            let mut k: usize = nv.len();
            assert(nv@.take(k as int) =~= nv@);
            while k > 0 && nv[k - 1] != '.'
                invariant
                    k <= nv.len(),
                    last_dot(nv@) == last_dot(nv@.take(k as int)),
                decreases k,
            {
                assert(nv@.take(k as int).drop_last() =~= nv@.take(k - 1));
                k = k - 1;
            }
            if k > 1 {
                assert(nv@.take(k as int).last() == '.');
                assert(nv@.subrange(k as int, nv.len() as int) =~= nv@.skip(k as int));
                Some(string_of_range(&nv, k, nv.len()))
            } else {
                if k == 1 {
                    assert(nv@.take(1).last() == '.');
                }
                None
            }
        },
        None => None,
    }
}

/// Whether `program` must be run through Node.
pub fn looks_like_js_cli(program: &str) -> (r: bool)
    ensures
        r == js_cli_spec(program@),
{
    match extension_of(program) {
        Some(e) => crate::text::str_eq(e.as_str(), "js") || crate::text::str_eq(e.as_str(), "mjs")
            || crate::text::str_eq(e.as_str(), "cjs"),
        None => false,
    }
}


/// Lexicographic order of `(major, minor, patch)`: `a` is at least `b`.
pub open spec fn triple_at_least(a: (u64, u64, u64), b: (u64, u64, u64)) -> bool {
    a.0 > b.0 || (a.0 == b.0 && (a.1 > b.1 || (a.1 == b.1 && a.2 >= b.2)))
}

/// The minimum check is semver order against the release `0.80.10`: a
/// release meets it exactly when its `(major, minor, patch)` is at least
/// `(0, 80, 10)` lexicographically, and a pre-release exactly when its
/// `(major, minor, patch)` is above `(0, 80, 10)` (a pre-release comes
/// before the release it leads to).  Build metadata plays no part.
pub proof fn law_minimum_is_semver_order(p: (u64, u64, u64, Seq<char>, Seq<char>))
    ensures
        p.3.len() == 0 ==> (meets_minimum_spec(p) <==> triple_at_least((p.0, p.1, p.2), (0, 80, 10))),
        p.3.len() > 0 ==> (meets_minimum_spec(p) <==> (triple_at_least((p.0, p.1, p.2), (0, 80, 10)) && (p.0, p.1, p.2)
            != (0u64, 80u64, 10u64))),
        forall|b: Seq<char>| meets_minimum_spec(p) == #[trigger] meets_minimum_spec((p.0, p.1, p.2, p.3, b)),
{
}

/// Meeting the minimum is kept by newer releases: if a version meets it,
/// every release at least as new (in `(major, minor, patch)` order) does.
pub proof fn law_minimum_upward_closed(
    p: (u64, u64, u64, Seq<char>, Seq<char>),
    q: (u64, u64, u64, Seq<char>, Seq<char>),
)
    requires
        meets_minimum_spec(p),
        q.3.len() == 0,
        triple_at_least((q.0, q.1, q.2), (p.0, p.1, p.2)),
    ensures
        meets_minimum_spec(q),
{
}

} // verus!
