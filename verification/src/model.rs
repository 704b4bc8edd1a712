//! Pi's data as the adapter sees it: session metadata, state, models,
//! commands and tool output, plus the rules that read them.
use crate::json::{
    i64_of, json_model, opt_model, JsonModel, bool_of, field, first_str, first_u64, get_bool, opt_str_view, or_empty, str1, str2, str3, str4, str5,
    str_of, str_or_empty, u64_4, Json,
};
use crate::json::{
    get_i64, get_str, lemma_field_decreases, member_models, names_view, opt_deref,
    to_pretty_string,
};
use crate::text::{
    contains_text, decimal, eq_ignore_ascii_case, eq_ignore_case, has_infix, i64_to_string, is_blank, join,
    join_strings, lower, push_char, push_decimal, push_str, str_eq, to_ascii_lowercase, to_owned, trim, trim_start_char,
    trim_start_matches_char, trim_str,
};
use crate::theme::{lemma_lex_irreflexive, lemma_lex_total, lemma_lex_transitive, lex_lt, lex_lt_exec};
use vstd::prelude::*;

verus! {

/// Local Pi session metadata, read from the JSONL session format.
#[derive(Debug, Clone)]
pub struct PiSessionInfo {
    pub path: String,
    pub id: String,
    pub cwd: String,
    pub name: Option<String>,
    pub created_at: String,
    pub modified_at: String,
    pub message_count: usize,
    pub first_message: String,
}

/// Pi's `switch_session` response.  A cancelled switch must not replace the
/// adapter's active session metadata.
#[derive(Debug, Clone, Copy, PartialEq, Eq, Structural)]
pub struct PiSessionSwitch {
    pub cancelled: bool,
}

/// Pi's `get_state` response.
#[derive(Debug, Clone)]
pub struct PiState {
    pub session_id: String,
    pub session_file: Option<String>,
    pub session_name: Option<String>,
    pub model: Option<PiModel>,
    pub thinking_level: String,
    pub is_streaming: bool,
}

impl Default for PiState {
    fn default() -> (s: Self)
        ensures
            s.session_id@.len() == 0,
            s.session_file is None,
            s.session_name is None,
            s.model is None,
            s.thinking_level@.len() == 0,
            !s.is_streaming,
    {
        PiState {
            session_id: String::new(),
            session_file: None,
            session_name: None,
            model: None,
            thinking_level: String::new(),
            is_streaming: false,
        }
    }
}

/// A model Pi offers.
#[derive(Debug)]
pub struct PiModel {
    pub provider: String,
    pub id: String,
    pub label: String,
    pub context_window: Option<u64>,
    pub reasoning: bool,
    pub accepts_images: bool,
    /// Pi-level tokens accepted by `set_thinking_level` for this model.
    pub thinking_levels: Vec<String>,
}

/// Abstract value of a [`PiModel`].
pub struct ModelView {
    pub provider: Seq<char>,
    pub id: Seq<char>,
    pub label: Seq<char>,
    pub context_window: Option<u64>,
    pub reasoning: bool,
    pub accepts_images: bool,
    pub thinking_levels: Seq<Seq<char>>,
}

impl View for PiModel {
    type V = ModelView;

    open spec fn view(&self) -> ModelView {
        ModelView {
            provider: self.provider@,
            id: self.id@,
            label: self.label@,
            context_window: self.context_window,
            reasoning: self.reasoning,
            accepts_images: self.accepts_images,
            thinking_levels: level_views(self.thinking_levels@),
        }
    }
}

impl Clone for PiModel {
    fn clone(&self) -> (r: Self)
        ensures
            r@ == self@,
    {
        let mut levels: Vec<String> = Vec::new();
        let mut i: usize = 0;
        while i < self.thinking_levels.len()
            invariant
                i <= self.thinking_levels.len(),
                levels@.len() == i,
                level_views(levels@) == level_views(self.thinking_levels@).take(i as int),
            decreases self.thinking_levels.len() - i,
        {
            let ghost before = levels@;
            let c = self.thinking_levels[i].clone();
            assert(c@ == self.thinking_levels@[i as int]@);
            levels.push(c);
            assert(levels@ == before.push(c));
            assert forall|j: int| 0 <= j <= i implies #[trigger] level_views(levels@)[j]
                == level_views(self.thinking_levels@)[j] by {
                assert(levels@.len() == i + 1);
                if j < i {
                    assert(level_views(before)[j] == level_views(self.thinking_levels@).take(
                        i as int,
                    )[j]);
                    assert(levels@[j] == before[j]);
                } else {
                    assert(levels@[j] == c);
                }
            }
            assert(level_views(levels@) =~= level_views(self.thinking_levels@).take(i + 1));
            i = i + 1;
        }
        assert(level_views(self.thinking_levels@).take(i as int) =~= level_views(self.thinking_levels@));
        PiModel {
            provider: self.provider.clone(),
            id: self.id.clone(),
            label: self.label.clone(),
            context_window: self.context_window,
            reasoning: self.reasoning,
            accepts_images: self.accepts_images,
            thinking_levels: levels,
        }
    }
}

impl Default for PiModel {
    fn default() -> (m: Self)
        ensures
            m.provider@.len() == 0,
            m.id@.len() == 0,
            m.label@.len() == 0,
            m.context_window is None,
            !m.reasoning,
            !m.accepts_images,
            m.thinking_levels@.len() == 0,
    {
        PiModel {
            provider: String::new(),
            id: String::new(),
            label: String::new(),
            context_window: None,
            reasoning: false,
            accepts_images: false,
            thinking_levels: Vec::new(),
        }
    }
}

/// A slash command Pi offers.
#[derive(Debug, Clone)]
pub struct PiCommand {
    pub name: String,
    pub description: String,
    pub source: String,
}

impl Default for PiCommand {
    fn default() -> (c: Self)
        ensures
            c.name@.len() == 0,
            c.description@.len() == 0,
            c.source@.len() == 0,
    {
        PiCommand { name: String::new(), description: String::new(), source: String::new() }
    }
}

/// One block of a tool result.
#[derive(Debug, Clone)]
pub enum PiToolContent {
    Text(String),
    Image { data: String, mime_type: String },
}

/// The thinking levels of a model, as character sequences.
pub open spec fn level_views(levels: Seq<String>) -> Seq<Seq<char>> {
    levels.map_values(|s: String| s@)
}

/// Whether `levels` holds `level`, ignoring ASCII case.
pub open spec fn supports_level(levels: Seq<Seq<char>>, level: Seq<char>) -> bool {
    exists|i: int| 0 <= i < levels.len() && eq_ignore_case(#[trigger] levels[i], level)
}

/// The Pi level that Grok's effort `effort` asks for (`None` for an unknown
/// effort).  Grok's top slot maps to `max` when the model has it.
pub open spec fn requested_level(effort: Seq<char>, has_max: bool) -> Option<Seq<char>> {
    let e = lower(effort);
    if e == "none"@ || e == "off"@ {
        Some("off"@)
    } else if e == "minimal"@ {
        Some("minimal"@)
    } else if e == "low"@ {
        Some("low"@)
    } else if e == "medium"@ {
        Some("medium"@)
    } else if e == "high"@ {
        Some("high"@)
    } else if e == "xhigh"@ || e == "max"@ {
        Some(if has_max { "max"@ } else { "xhigh"@ })
    } else {
        None
    }
}

/// The Pi level for Grok effort `effort` on a model with `levels`: the
/// requested level, when the model supports it.
pub open spec fn level_for_effort(levels: Seq<Seq<char>>, effort: Seq<char>) -> Option<Seq<char>> {
    match requested_level(effort, supports_level(levels, "max"@)) {
        Some(r) => if supports_level(levels, r) {
            Some(r)
        } else {
            None
        },
        None => None,
    }
}

impl PiModel {
    /// Whether the model accepts thinking level `level` (ASCII case ignored).
    pub fn supports_thinking_level(&self, level: &str) -> (r: bool)
        ensures
            r == supports_level(level_views(self.thinking_levels@), level@),
    {
        let ghost lv = level_views(self.thinking_levels@);
        let mut i: usize = 0;
        while i < self.thinking_levels.len()
            invariant
                i <= self.thinking_levels.len(),
                lv == level_views(self.thinking_levels@),
                forall|j: int| 0 <= j < i ==> !eq_ignore_case(#[trigger] lv[j], level@),
            decreases self.thinking_levels.len() - i,
        {
            if eq_ignore_ascii_case(self.thinking_levels[i].as_str(), level) {
                assert(eq_ignore_case(lv[i as int], level@));
                return true;
            }
            i = i + 1;
        }
        false
    }

    /// The Pi level for Grok's native effort `effort`.  Grok has one top slot
    /// (`xhigh`) while Pi may offer `xhigh`, `max` or both: the strongest
    /// available one is chosen, so the native selector never sends a level
    /// the model lacks.
    pub fn pi_level_for_acp_effort(&self, effort: &str) -> (r: Option<&'static str>)
        ensures
            match r {
                Some(s) => level_for_effort(level_views(self.thinking_levels@), effort@) == Some(s@),
                None => level_for_effort(level_views(self.thinking_levels@), effort@) is None,
            },
    {
        let e = to_ascii_lowercase(effort);
        let es = e.as_str();
        let requested: &'static str = if str_eq(es, "none") || str_eq(es, "off") {
            "off"
        } else if str_eq(es, "minimal") {
            "minimal"
        } else if str_eq(es, "low") {
            "low"
        } else if str_eq(es, "medium") {
            "medium"
        } else if str_eq(es, "high") {
            "high"
        } else if str_eq(es, "xhigh") || str_eq(es, "max") {
            if self.supports_thinking_level("max") {
                "max"
            } else {
                "xhigh"
            }
        } else {
            return None;
        };
        if self.supports_thinking_level(requested) {
            Some(requested)
        } else {
            None
        }
    }
}

/// A separator that the default session store replaces by `-`.
pub open spec fn dir_sep(c: char) -> bool {
    c == '/' || c == '\\' || c == ':'
}


/// `s` without its leading `/` and `\` characters.
pub open spec fn strip_leading_slashes(s: Seq<char>) -> Seq<char>
    decreases s.len(),
{
    if s.len() > 0 && (s[0] == '/' || s[0] == '\\') {
        strip_leading_slashes(s.drop_first())
    } else {
        s
    }
}

/// A character of a project directory name: separators and colons as `-`.
pub open spec fn dir_char(c: char) -> char {
    if dir_sep(c) {
        '-'
    } else {
        c
    }
}

/// The directory name under which Pi's default store keeps the sessions of
/// `cwd`: leading slashes dropped, `/`, `\` and `:` turned into `-`, and the
/// whole wrapped in `--`.
pub open spec fn session_dir_name(cwd: Seq<char>) -> Seq<char> {
    "--"@ + strip_leading_slashes(cwd).map_values(|c: char| dir_char(c)) + "--"@
}

/// The default store's directory name for the sessions of `cwd`.
pub fn default_session_dir_name(cwd: &str) -> (r: String)
    ensures
        r@ == session_dir_name(cwd@),
{
    let v = crate::text::chars_of(cwd);
    let mut k: usize = 0;
    assert(v@.skip(0) =~= v@);
    while k < v.len() && (v[k] == '/' || v[k] == '\\')
        invariant
            k <= v.len(),
            v@ == cwd@,
            strip_leading_slashes(v@.skip(k as int)) == strip_leading_slashes(cwd@),
        decreases v.len() - k,
    {
        assert(v@.skip(k as int).drop_first() =~= v@.skip(k + 1));
        k = k + 1;
    }
    let ghost rest = v@.skip(k as int);
    assert(strip_leading_slashes(rest) == rest);
    let mut out = to_owned("--");
    let mut i: usize = k;
    while i < v.len()
        invariant
            k <= i <= v.len(),
            rest == v@.skip(k as int),
            out@ == "--"@ + rest.take(i - k).map_values(|c: char| dir_char(c)),
        decreases v.len() - i,
    {
        let c = v[i];
        let d = if c == '/' || c == '\\' || c == ':' {
            '-'
        } else {
            c
        };
        push_char(&mut out, d);
        assert(rest.take(i + 1 - k) =~= rest.take(i - k).push(c));
        assert(rest.take(i + 1 - k).map_values(|c: char| dir_char(c)) =~= rest.take(i - k).map_values(
            |c: char| dir_char(c),
        ).push(d));
        i = i + 1;
    }
    assert(rest.take(v.len() - k) =~= rest);
    push_str(&mut out, "--");
    out
}

/// `value[key]` when `value` has that member, else `value` itself.
pub open spec fn member_or_self(v: Json, key: Seq<char>) -> Json {
    match field(v, key) {
        Some(x) => x,
        None => v,
    }
}

fn member_or_self_exec<'a>(v: &'a Json, key: &str) -> (r: &'a Json)
    ensures
        *r == member_or_self(*v, key@),
{
    match v.get(key) {
        Some(x) => x,
        None => v,
    }
}

/// The view of an optional owned string.
pub open spec fn opt_string_view(o: Option<String>) -> Option<Seq<char>> {
    match o {
        Some(s) => Some(s@),
        None => None,
    }
}

fn owned(s: Option<&str>) -> (r: Option<String>)
    ensures
        opt_string_view(r) == opt_str_view(s),
{
    match s {
        Some(t) => Some(to_owned(t)),
        None => None,
    }
}

/// Pi's `switch_session` response: cancelled only when `cancelled` is `true`.
pub fn parse_session_switch(value: &Json) -> (r: PiSessionSwitch)
    ensures
        r.cancelled == (bool_of(field(*value, "cancelled"@)) == Some(true)),
{
    PiSessionSwitch { cancelled: get_bool(value, "cancelled") == Some(true) }
}

// ─── Local session files ─────────────────────────────────────────────────────

/// Abstract value of a [`PiSessionInfo`].
pub struct SessionView {
    pub path: Seq<char>,
    pub id: Seq<char>,
    pub cwd: Seq<char>,
    pub name: Option<Seq<char>>,
    pub created_at: Seq<char>,
    pub modified_at: Seq<char>,
    pub message_count: nat,
    pub first_message: Seq<char>,
}

pub open spec fn session_view(s: PiSessionInfo) -> SessionView {
    SessionView {
        path: s.path@,
        id: s.id@,
        cwd: s.cwd@,
        name: opt_string_view(s.name),
        created_at: s.created_at@,
        modified_at: s.modified_at@,
        message_count: s.message_count as nat,
        first_message: s.first_message@,
    }
}

pub open spec fn session_views(v: Seq<PiSessionInfo>) -> Seq<SessionView> {
    v.map_values(|s: PiSessionInfo| session_view(s))
}

/// The text blocks of the first `n` content blocks, trimmed, the blank ones
/// left out.
pub open spec fn block_texts(blocks: Seq<Json>, n: int) -> Seq<Seq<char>>
    decreases n,
{
    if n <= 0 || n > blocks.len() {
        Seq::empty()
    } else {
        let rest = block_texts(blocks, n - 1);
        let b = blocks[n - 1];
        if str_of(field(b, "type"@)) == Some("text"@) {
            match str_of(field(b, "text"@)) {
                Some(t) => if trim(t).len() > 0 {
                    rest.push(trim(t))
                } else {
                    rest
                },
                None => rest,
            }
        } else {
            rest
        }
    }
}

/// The text of a session message: its string content when not blank, or
/// its text blocks, trimmed and joined by spaces, when there are any.
pub open spec fn message_text_spec(message: Json) -> Option<Seq<char>> {
    match field(message, "content"@) {
        Some(Json::Str(t)) => if trim(t@).len() > 0 {
            Some(t@)
        } else {
            None
        },
        Some(Json::Array(blocks)) => {
            let j = join(block_texts(blocks@, blocks@.len() as int), " "@);
            if j.len() > 0 {
                Some(j)
            } else {
                None
            }
        },
        _ => None,
    }
}

/// The text of a session message (see [`message_text_spec`]).
pub fn session_message_text(message: &Json) -> (r: Option<String>)
    ensures
        opt_string_view(r) == message_text_spec(*message),
{
    match message.get("content") {
        Some(Json::Str(t)) => {
            if !is_blank(t.as_str()) {
                Some(t.clone())
            } else {
                None
            }
        },
        Some(Json::Array(blocks)) => {
            let mut parts: Vec<String> = Vec::new();
            let mut i: usize = 0;
            while i < blocks.len()
                invariant
                    i <= blocks.len(),
                    parts.deep_view() == block_texts(blocks@, i as int),
                decreases blocks.len() - i,
            {
                let b = &blocks[i];
                let is_text = match get_str(b, "type") {
                    Some(k) => str_eq(k, "text"),
                    None => false,
                };
                if is_text {
                    match get_str(b, "text") {
                        Some(t) => {
                            let tt = trim_str(t);
                            if tt.unicode_len() > 0 {
                                let ghost before = parts.deep_view();
                                parts.push(tt);
                                assert(parts.deep_view() =~= before.push(tt@));
                            }
                        },
                        None => {},
                    }
                }
                i = i + 1;
            }
            let j = join_strings(&parts, " ");
            if j.unicode_len() > 0 {
                Some(j)
            } else {
                None
            }
        },
        _ => None,
    }
}


/// What a pass over a session file has gathered so far.
pub struct ScanState {
    /// `(id, cwd, timestamp)` of the header line.
    pub header: Option<(Seq<char>, Seq<char>, Seq<char>)>,
    pub name: Option<Seq<char>>,
    pub count: nat,
    pub first: Option<Seq<char>>,
    pub modified: Option<Seq<char>>,
}

/// A trimmed text, when not blank.
pub open spec fn nonblank_trimmed(o: Option<Seq<char>>) -> Option<Seq<char>> {
    match o {
        Some(t) => if trim(t).len() > 0 {
            Some(trim(t))
        } else {
            None
        },
        None => None,
    }
}

/// The decimal text of a signed number.
pub open spec fn i64_text(n: i64) -> Seq<char> {
    if n < 0 {
        seq!['-'] + decimal((-n) as nat)
    } else {
        decimal(n as nat)
    }
}

/// One line of a session file (`None` when it is not JSON; the scan then
/// fails, as it does for a line without a `type` and for a file whose first
/// line is not a `session` header with an `id`).
pub open spec fn scan_step(s: ScanState, line: Option<Json>) -> Option<ScanState> {
    match line {
        None => None,
        Some(v) => match str_of(field(v, "type"@)) {
            None => None,
            Some(kind) => match s.header {
                None => if kind != "session"@ {
                    None
                } else {
                    match str_of(field(v, "id"@)) {
                        None => None,
                        Some(id) => Some(
                            ScanState {
                                header: Some(
                                    (
                                        id,
                                        or_empty(str_of(field(v, "cwd"@))),
                                        or_empty(str_of(field(v, "timestamp"@))),
                                    ),
                                ),
                                ..s
                            },
                        ),
                    }
                },
                Some(_) => {
                    let s1 = if kind == "session_info"@ {
                        ScanState { name: nonblank_trimmed(str_of(field(v, "name"@))), ..s }
                    } else {
                        s
                    };
                    if kind != "message"@ {
                        Some(s1)
                    } else {
                        let s2 = ScanState { count: s1.count + 1, ..s1 };
                        match field(v, "message"@) {
                            None => Some(s2),
                            Some(m) => {
                                let role = or_empty(str_of(field(m, "role"@)));
                                if role != "user"@ && role != "assistant"@ {
                                    Some(s2)
                                } else {
                                    let s3 = match i64_of(field(m, "timestamp"@)) {
                                        Some(t) => ScanState { modified: Some(i64_text(t)), ..s2 },
                                        None => s2,
                                    };
                                    if role == "user"@ && s3.first is None {
                                        Some(ScanState { first: message_text_spec(m), ..s3 })
                                    } else {
                                        Some(s3)
                                    }
                                }
                            },
                        }
                    }
                },
            },
        },
    }
}

/// The state before any line.
pub open spec fn scan_init() -> ScanState {
    ScanState { header: None, name: None, count: 0, first: None, modified: None }
}

/// The state after the first `n` lines.
pub open spec fn scan_upto(lines: Seq<Option<Json>>, n: int) -> Option<ScanState>
    decreases n,
{
    if n <= 0 {
        Some(scan_init())
    } else {
        match scan_upto(lines, n - 1) {
            None => None,
            Some(s) => scan_step(s, lines[n - 1]),
        }
    }
}

/// The metadata of the session file at `path` with `lines`.
pub open spec fn session_file_spec(path: Seq<char>, lines: Seq<Option<Json>>) -> Option<SessionView> {
    match scan_upto(lines, lines.len() as int) {
        None => None,
        Some(s) => match s.header {
            None => None,
            Some((id, cwd, created)) => Some(
                SessionView {
                    path,
                    id,
                    cwd,
                    name: s.name,
                    created_at: created,
                    modified_at: match s.modified {
                        Some(m) => m,
                        None => created,
                    },
                    message_count: s.count,
                    first_message: match s.first {
                        Some(f) => f,
                        None => "(no messages)"@,
                    },
                },
            ),
        },
    }
}

proof fn lemma_scan_failed(lines: Seq<Option<Json>>, n: int, m: int)
    requires
        0 <= n <= m,
        scan_upto(lines, n) is None,
    ensures
        scan_upto(lines, m) is None,
    decreases m - n,
{
    if m > n {
        lemma_scan_failed(lines, n, m - 1);
    }
}

proof fn lemma_scan_count(lines: Seq<Option<Json>>, n: int)
    requires
        0 <= n,
    ensures
        scan_upto(lines, n) matches Some(s) ==> s.count <= n,
    decreases n,
{
    if n > 0 {
        lemma_scan_count(lines, n - 1);
    }
}

/// Read a session file's metadata from its lines, each parsed as JSON
/// (`None` where a line is not JSON).  `None` when the file is not a Pi
/// session (see [`session_file_spec`]).
pub fn parse_session_file(path: &str, lines: &Vec<Option<Json>>) -> (r: Option<PiSessionInfo>)
    ensures
        match r {
            Some(s) => session_file_spec(path@, lines@) == Some(session_view(s)),
            None => session_file_spec(path@, lines@) is None,
        },
{
    let mut header: Option<(String, String, String)> = None;
    let mut name: Option<String> = None;
    let mut message_count: usize = 0;
    let mut first_message: Option<String> = None;
    let mut modified_at: Option<String> = None;
    let mut i: usize = 0;
    while i < lines.len()
        invariant
            i <= lines.len(),
            scan_upto(lines@, i as int) == Some(
                ScanState {
                    header: match header {
                        Some((a, b, c)) => Some((a@, b@, c@)),
                        None => None,
                    },
                    name: opt_string_view(name),
                    count: message_count as nat,
                    first: opt_string_view(first_message),
                    modified: opt_string_view(modified_at),
                },
            ),
        decreases lines.len() - i,
    {
        proof {
            lemma_scan_count(lines@, i as int);
        }
        let value = match &lines[i] {
            Some(v) => v,
            None => {
                proof {
                    lemma_scan_failed(lines@, i + 1, lines@.len() as int);
                }
                return None;
            },
        };
        let kind = match get_str(value, "type") {
            Some(k) => k,
            None => {
                proof {
                    lemma_scan_failed(lines@, i + 1, lines@.len() as int);
                }
                return None;
            },
        };
        if header.is_none() {
            if !str_eq(kind, "session") {
                proof {
                    lemma_scan_failed(lines@, i + 1, lines@.len() as int);
                }
                return None;
            }
            let id = match get_str(value, "id") {
                Some(x) => x,
                None => {
                    proof {
                        lemma_scan_failed(lines@, i + 1, lines@.len() as int);
                    }
                    return None;
                },
            };
            header = Some((to_owned(id), str_or_empty(get_str(value, "cwd")), str_or_empty(get_str(value, "timestamp"))));
            i = i + 1;
            continue;
        }
        if str_eq(kind, "session_info") {
            name = match get_str(value, "name") {
                Some(t) => {
                    let tt = trim_str(t);
                    if tt.unicode_len() > 0 {
                        Some(tt)
                    } else {
                        None
                    }
                },
                None => None,
            };
        }
        if !str_eq(kind, "message") {
            i = i + 1;
            continue;
        }
        message_count = message_count + 1;
        let message = match value.get("message") {
            Some(m) => m,
            None => {
                i = i + 1;
                continue;
            },
        };
        let role = str_or_empty(get_str(message, "role"));
        let is_user = str_eq(role.as_str(), "user");
        if !is_user && !str_eq(role.as_str(), "assistant") {
            i = i + 1;
            continue;
        }
        match message.get("timestamp") {
            Some(t) => match t.as_i64() {
                Some(n) => {
                    modified_at = Some(i64_to_string(n));
                },
                None => {},
            },
            None => {},
        }
        if is_user && first_message.is_none() {
            first_message = session_message_text(message);
        }
        i = i + 1;
    }
    match header {
        Some((id, cwd, created_at)) => {
            let modified = match modified_at {
                Some(m) => m,
                None => created_at.clone(),
            };
            let first = match first_message {
                Some(f) => f,
                None => to_owned("(no messages)"),
            };
            Some(
                PiSessionInfo {
                    path: to_owned(path),
                    id,
                    cwd,
                    name,
                    created_at,
                    modified_at: modified,
                    message_count,
                    first_message: first,
                },
            )
        },
        None => None,
    }
}

/// Where a stable newest-first sort puts an element with key `k` among the
/// already sorted `s`: after every element whose key is not smaller.
pub open spec fn desc_slot<A>(s: Seq<A>, key: spec_fn(A) -> Seq<char>, k: Seq<char>) -> int
    decreases s.len(),
{
    if s.len() == 0 {
        0
    } else if lex_lt(key(s.last()), k) {
        desc_slot(s.drop_last(), key, k)
    } else {
        s.len() as int
    }
}

/// `s` stably sorted by `key`, largest first.
pub open spec fn sort_desc_by_key<A>(s: Seq<A>, key: spec_fn(A) -> Seq<char>) -> Seq<A>
    decreases s.len(),
{
    if s.len() == 0 {
        s
    } else {
        let t = sort_desc_by_key(s.drop_last(), key);
        t.insert(desc_slot(t, key, key(s.last())), s.last())
    }
}

proof fn lemma_desc_slot_range<A>(s: Seq<A>, key: spec_fn(A) -> Seq<char>, k: Seq<char>)
    ensures
        0 <= desc_slot(s, key, k) <= s.len(),
    decreases s.len(),
{
    if s.len() > 0 {
        lemma_desc_slot_range(s.drop_last(), key, k);
    }
}

proof fn lemma_sort_desc_len<A>(s: Seq<A>, key: spec_fn(A) -> Seq<char>)
    ensures
        sort_desc_by_key(s, key).len() == s.len(),
    decreases s.len(),
{
    if s.len() > 0 {
        lemma_sort_desc_len(s.drop_last(), key);
        lemma_desc_slot_range(sort_desc_by_key(s.drop_last(), key), key, key(s.last()));
    }
}

/// The modification time of a session.
pub open spec fn modified_key() -> spec_fn(SessionView) -> Seq<char> {
    |s: SessionView| s.modified_at
}

fn copy_session(s: &PiSessionInfo) -> (r: PiSessionInfo)
    ensures
        session_view(r) == session_view(*s),
{
    PiSessionInfo {
        path: s.path.clone(),
        id: s.id.clone(),
        cwd: s.cwd.clone(),
        name: match &s.name {
            Some(n) => Some(n.clone()),
            None => None,
        },
        created_at: s.created_at.clone(),
        modified_at: s.modified_at.clone(),
        message_count: s.message_count,
        first_message: s.first_message.clone(),
    }
}

fn session_slot(sorted: &Vec<PiSessionInfo>, modified: &str) -> (r: usize)
    ensures
        r == desc_slot(session_views(sorted@), modified_key(), modified@),
{
    let mut i: usize = sorted.len();
    assert(session_views(sorted@).take(i as int) =~= session_views(sorted@));
    while i > 0
        invariant
            i <= sorted.len(),
            desc_slot(session_views(sorted@), modified_key(), modified@) == desc_slot(
                session_views(sorted@).take(i as int),
                modified_key(),
                modified@,
            ),
        decreases i,
    {
        let ghost t = session_views(sorted@).take(i as int);
        assert(t.last() == session_view(sorted@[i - 1]));
        if !lex_lt_exec(sorted[i - 1].modified_at.as_str(), modified) {
            return i;
        }
        assert(t.drop_last() =~= session_views(sorted@).take(i - 1));
        i = i - 1;
    }
    0
}

/// Sessions newest first (stable: equal times keep their order).
pub fn sort_sessions_by_modified(sessions: &Vec<PiSessionInfo>) -> (r: Vec<PiSessionInfo>)
    ensures
        session_views(r@) == sort_desc_by_key(session_views(sessions@), modified_key()),
{
    let mut out: Vec<PiSessionInfo> = Vec::new();
    let mut i: usize = 0;
    assert(session_views(sessions@).take(0) =~= Seq::<SessionView>::empty());
    while i < sessions.len()
        invariant
            i <= sessions.len(),
            session_views(out@) == sort_desc_by_key(session_views(sessions@).take(i as int), modified_key()),
        decreases sessions.len() - i,
    {
        let ghost pre = session_views(sessions@).take(i + 1);
        assert(pre.drop_last() =~= session_views(sessions@).take(i as int));
        assert(pre.last() == session_view(sessions@[i as int]));
        let c = copy_session(&sessions[i]);
        let k = session_slot(&out, sessions[i].modified_at.as_str());
        proof {
            lemma_desc_slot_range(session_views(out@), modified_key(), c.modified_at@);
        }
        let ghost before = session_views(out@);
        out.insert(k, c);
        assert(session_views(out@) =~= before.insert(k as int, session_view(c)));
        i = i + 1;
    }
    assert(session_views(sessions@).take(sessions.len() as int) =~= session_views(sessions@));
    out
}

/// The sessions whose working directory is `cwd`, in order.
pub fn filter_sessions_by_cwd(sessions: &Vec<PiSessionInfo>, cwd: &str) -> (r: Vec<PiSessionInfo>)
    ensures
        session_views(r@) == session_views(sessions@).filter(|s: SessionView| s.cwd == cwd@),
{
    let mut out: Vec<PiSessionInfo> = Vec::new();
    let mut i: usize = 0;
    assert(session_views(sessions@).take(0) =~= Seq::<SessionView>::empty());
    while i < sessions.len()
        invariant
            i <= sessions.len(),
            session_views(out@) == session_views(sessions@).take(i as int).filter(|s: SessionView| s.cwd == cwd@),
        decreases sessions.len() - i,
    {
        let ghost pre = session_views(sessions@).take(i + 1);
        assert(pre.drop_last() =~= session_views(sessions@).take(i as int));
        assert(pre.last() == session_view(sessions@[i as int]));
        proof {
            reveal(Seq::filter);
        }
        if str_eq(sessions[i].cwd.as_str(), cwd) {
            let c = copy_session(&sessions[i]);
            let ghost before = out@;
            out.push(c);
            assert(session_views(out@) =~= session_views(before).push(session_view(c)));
        }
        i = i + 1;
    }
    assert(session_views(sessions@).take(sessions.len() as int) =~= session_views(sessions@));
    out
}


// ─── Models ──────────────────────────────────────────────────────────────────

/// The label of a model without one: `provider/id`, or the id alone.
pub open spec fn default_label(provider: Seq<char>, id: Seq<char>) -> Seq<char> {
    if provider.len() == 0 {
        id
    } else {
        provider + "/"@ + id
    }
}

/// Whether a model reasons: `reasoning`, else `supportsReasoning`, else
/// `capabilities.reasoning`, else not.
pub open spec fn reasoning_spec(v: Json) -> bool {
    match bool_of(field(v, "reasoning"@)) {
        Some(b) => b,
        None => match bool_of(field(v, "supportsReasoning"@)) {
            Some(b) => b,
            None => match field(v, "capabilities"@) {
                Some(c) => bool_of(field(c, "reasoning"@)) == Some(true),
                None => false,
            },
        },
    }
}

/// Whether a list holds the string `image`.
pub open spec fn has_image(items: Seq<Json>) -> bool {
    exists|i: int| 0 <= i < items.len() && str_of(Some(#[trigger] items[i])) == Some("image"@)
}

/// Whether a model accepts images: its input list (`input`, else
/// `inputModalities`) names `image`; without such a list, `supportsImages`.
pub open spec fn images_spec(v: Json) -> bool {
    let src = match field(v, "input"@) {
        Some(x) => Some(x),
        None => field(v, "inputModalities"@),
    };
    match src {
        Some(Json::Array(items)) => has_image(items@),
        _ => bool_of(field(v, "supportsImages"@)) == Some(true),
    }
}

/// The model's `thinkingLevelMap`, when it is an object.
pub open spec fn level_map(v: Json) -> Option<Json> {
    match field(v, "thinkingLevelMap"@) {
        Some(m) => if m is Object {
            Some(m)
        } else {
            None
        },
        None => None,
    }
}

/// Whether a level is on when the map is silent about it by default.
pub open spec fn level_on(v: Json, level: Seq<char>, default: bool) -> bool {
    match level_map(v) {
        Some(m) => match field(m, level) {
            Some(x) => !(x is Null),
            None => default,
        },
        None => default,
    }
}

/// `[level]` when it is on.
pub open spec fn opt_level(level: Seq<char>, on: bool) -> Seq<Seq<char>> {
    if on {
        seq![level]
    } else {
        Seq::empty()
    }
}

/// The thinking levels of a model: `off` alone without reasoning; else the
/// standard levels unless the map sets them to `null`, then the extended
/// ones (`xhigh`, `max`) when the map enables them.
pub open spec fn thinking_levels_spec(v: Json, reasoning: bool) -> Seq<Seq<char>> {
    if !reasoning {
        seq!["off"@]
    } else {
        opt_level("off"@, level_on(v, "off"@, true)) + opt_level("minimal"@, level_on(v, "minimal"@, true))
            + opt_level("low"@, level_on(v, "low"@, true)) + opt_level("medium"@, level_on(v, "medium"@, true))
            + opt_level("high"@, level_on(v, "high"@, true)) + opt_level("xhigh"@, level_on(v, "xhigh"@, false))
            + opt_level("max"@, level_on(v, "max"@, false))
    }
}

/// A model entry of Pi: `None` without an id.
pub open spec fn parse_model_spec(v: Json) -> Option<ModelView> {
    match first_str(v, seq!["id"@, "modelId"@, "model_id"@]) {
        None => None,
        Some(id) => {
            let provider = or_empty(first_str(v, seq!["provider"@, "providerId"@, "provider_id"@, "api"@]));
            let reasoning = reasoning_spec(v);
            Some(
                ModelView {
                    provider,
                    id,
                    label: match first_str(v, seq!["name"@, "label"@, "displayName"@, "display_name"@]) {
                        Some(l) => l,
                        None => default_label(provider, id),
                    },
                    context_window: first_u64(
                        v,
                        seq!["contextWindow"@, "context_window"@, "contextWindowTokens"@, "maxTokens"@],
                    ),
                    reasoning,
                    accepts_images: images_spec(v),
                    thinking_levels: thinking_levels_spec(v, reasoning),
                },
            )
        },
    }
}

fn map_level_on(map: Option<&Json>, level: &str, default: bool) -> (r: bool)
    ensures
        r == match opt_deref(map) {
            Some(m) => match field(m, level@) {
                Some(x) => !(x is Null),
                None => default,
            },
            None => default,
        },
{
    match map {
        Some(m) => match m.get(level) {
            Some(x) => !x.is_null(),
            None => default,
        },
        None => default,
    }
}

fn push_level(out: &mut Vec<String>, level: &str, on: bool)
    ensures
        level_views(final(out)@) == level_views(old(out)@) + opt_level(level@, on),
{
    let ghost before = level_views(out@);
    if on {
        out.push(to_owned(level));
        assert(level_views(out@) =~= before + seq![level@]);
    } else {
        assert(level_views(out@) =~= before + Seq::<Seq<char>>::empty());
    }
}

fn thinking_levels(value: &Json, reasoning: bool) -> (r: Vec<String>)
    ensures
        level_views(r@) == thinking_levels_spec(*value, reasoning),
{
    let mut out: Vec<String> = Vec::new();
    if !reasoning {
        out.push(to_owned("off"));
        assert(level_views(out@) =~= seq!["off"@]);
        return out;
    }
    let map = match value.get("thinkingLevelMap") {
        Some(m) => match m {
            Json::Object(_) => Some(m),
            _ => None,
        },
        None => None,
    };
    assert(opt_deref(map) == level_map(*value));
    assert(level_views(out@) =~= Seq::<Seq<char>>::empty());
    push_level(&mut out, "off", map_level_on(map, "off", true));
    push_level(&mut out, "minimal", map_level_on(map, "minimal", true));
    push_level(&mut out, "low", map_level_on(map, "low", true));
    push_level(&mut out, "medium", map_level_on(map, "medium", true));
    push_level(&mut out, "high", map_level_on(map, "high", true));
    push_level(&mut out, "xhigh", map_level_on(map, "xhigh", false));
    push_level(&mut out, "max", map_level_on(map, "max", false));
    assert(level_views(out@) =~= thinking_levels_spec(*value, reasoning));
    out
}

fn accepts_images(value: &Json) -> (r: bool)
    ensures
        r == images_spec(*value),
{
    let src = match value.get("input") {
        Some(x) => Some(x),
        None => value.get("inputModalities"),
    };
    let ghost gs = opt_deref(src);
    assert(gs == match field(*value, "input"@) {
        Some(x) => Some(x),
        None => field(*value, "inputModalities"@),
    });
    match src {
        Some(Json::Array(items)) => {
            assert(gs == Some(Json::Array(*items)));
            assert(images_spec(*value) == has_image(items@));
            let mut i: usize = 0;
            while i < items.len()
                invariant
                    i <= items.len(),
                    images_spec(*value) == has_image(items@),
                    forall|j: int| 0 <= j < i ==> str_of(Some(#[trigger] items@[j])) != Some("image"@),
                decreases items.len() - i,
            {
                match items[i].as_str() {
                    Some(t) => if str_eq(t, "image") {
                        assert(str_of(Some(items@[i as int])) == Some("image"@));
                        return true;
                    },
                    None => {},
                }
                i = i + 1;
            }
            false
        },
        _ => get_bool(value, "supportsImages") == Some(true),
    }
}

fn reasoning_of(value: &Json) -> (r: bool)
    ensures
        r == reasoning_spec(*value),
{
    match get_bool(value, "reasoning") {
        Some(b) => b,
        None => match get_bool(value, "supportsReasoning") {
            Some(b) => b,
            None => match value.get("capabilities") {
                Some(c) => get_bool(c, "reasoning") == Some(true),
                None => false,
            },
        },
    }
}

/// A model entry of Pi (see [`parse_model_spec`]).
pub fn parse_model(value: &Json) -> (r: Option<PiModel>)
    ensures
        match r {
            Some(m) => parse_model_spec(*value) == Some(m@),
            None => parse_model_spec(*value) is None,
        },
{
    let id = match str3(value, "id", "modelId", "model_id") {
        Some(x) => x,
        None => return None,
    };
    let provider = str_or_empty(str4(value, "provider", "providerId", "provider_id", "api"));
    let label = match str4(value, "name", "label", "displayName", "display_name") {
        Some(l) => to_owned(l),
        None => if provider.unicode_len() == 0 {
            to_owned(id)
        } else {
            let mut l = provider.clone();
            push_str(&mut l, "/");
            push_str(&mut l, id);
            l
        },
    };
    let context_window = u64_4(value, "contextWindow", "context_window", "contextWindowTokens", "maxTokens");
    let reasoning = reasoning_of(value);
    let accepts = accepts_images(value);
    let levels = thinking_levels(value, reasoning);
    Some(
        PiModel {
            provider,
            id: to_owned(id),
            label,
            context_window,
            reasoning,
            accepts_images: accepts,
            thinking_levels: levels,
        },
    )
}

/// Pi's `get_state` response, with defaults for what it leaves out.
pub fn parse_state(value: &Json) -> (r: PiState)
    ensures
        r.session_id@ == match first_str(*value, seq!["sessionId"@, "session_id"@]) {
            Some(s) => s,
            None => "pi-session"@,
        },
        opt_string_view(r.session_file) == first_str(*value, seq!["sessionFile"@, "session_file"@, "sessionPath"@]),
        opt_string_view(r.session_name) == first_str(*value, seq!["sessionName"@, "session_name"@]),
        match r.model {
            Some(m) => match field(*value, "model"@) {
                Some(x) => parse_model_spec(x) == Some(m@),
                None => false,
            },
            None => match field(*value, "model"@) {
                Some(x) => parse_model_spec(x) is None,
                None => true,
            },
        },
        r.thinking_level@ == match first_str(*value, seq!["thinkingLevel"@, "thinking_level"@]) {
            Some(s) => s,
            None => "medium"@,
        },
        r.is_streaming == (bool_of(field(*value, "isStreaming"@)) == Some(true)),
{
    let session_id = match str2(value, "sessionId", "session_id") {
        Some(s) => to_owned(s),
        None => to_owned("pi-session"),
    };
    let session_file = owned(str3(value, "sessionFile", "session_file", "sessionPath"));
    let session_name = owned(str2(value, "sessionName", "session_name"));
    let model = match value.get("model") {
        Some(m) => parse_model(m),
        None => None,
    };
    let thinking_level = match str2(value, "thinkingLevel", "thinking_level") {
        Some(s) => to_owned(s),
        None => to_owned("medium"),
    };
    PiState {
        session_id,
        session_file,
        session_name,
        model,
        thinking_level,
        is_streaming: get_bool(value, "isStreaming") == Some(true),
    }
}

/// The views of a list of models.
pub open spec fn model_views(v: Seq<PiModel>) -> Seq<ModelView> {
    v.map_values(|m: PiModel| m@)
}

/// A parsed model, with `hint` as provider when it names none.
pub open spec fn with_hint(m: ModelView, hint: Seq<char>) -> ModelView {
    if m.provider.len() == 0 {
        ModelView { provider: hint, ..m }
    } else {
        m
    }
}

/// The model a bare id stands for under provider `hint`.
pub open spec fn id_model(id: Seq<char>, hint: Seq<char>) -> ModelView {
    ModelView {
        provider: hint,
        id,
        label: default_label(hint, id),
        context_window: None,
        reasoning: false,
        accepts_images: false,
        thinking_levels: Seq::empty(),
    }
}

/// The models found in `v` under provider `hint`: a model entry; the
/// entries of a list; the members of an object (a member that is a list
/// names the provider of its entries); a bare id.
pub open spec fn collect_spec(v: Json, hint: Seq<char>) -> Seq<ModelView>
    decreases v, 0nat,
{
    match v {
        Json::Array(items) => collect_items(items@, items@.len() as int, hint),
        Json::Object(members) => match parse_model_spec(v) {
            Some(m) => seq![with_hint(m, hint)],
            None => collect_members(members@, members@.len() as int, hint),
        },
        Json::Str(id) => seq![id_model(id@, hint)],
        _ => Seq::empty(),
    }
}

/// The models of the first `n` items of a list.
pub open spec fn collect_items(items: Seq<Json>, n: int, hint: Seq<char>) -> Seq<ModelView>
    decreases items, n,
{
    if n <= 0 || n > items.len() {
        Seq::empty()
    } else {
        collect_items(items, n - 1, hint) + match parse_model_spec(items[n - 1]) {
            Some(m) => seq![with_hint(m, hint)],
            None => collect_spec(items[n - 1], hint),
        }
    }
}

/// The models of the first `n` members of an object.
pub open spec fn collect_members(members: Seq<(String, Json)>, n: int, hint: Seq<char>) -> Seq<ModelView>
    decreases members, n,
{
    if n <= 0 || n > members.len() {
        Seq::empty()
    } else {
        let child = members[n - 1].1;
        collect_members(members, n - 1, hint) + collect_spec(
            child,
            if child is Array {
                members[n - 1].0@
            } else {
                hint
            },
        )
    }
}

fn push_model(out: &mut Vec<PiModel>, m: PiModel)
    ensures
        model_views(final(out)@) == model_views(old(out)@).push(m@),
{
    let ghost before = model_views(out@);
    out.push(m);
    assert(model_views(out@) =~= before.push(m@));
}

fn push_hinted(out: &mut Vec<PiModel>, m: PiModel, hint: &str)
    ensures
        model_views(final(out)@) == model_views(old(out)@).push(with_hint(m@, hint@)),
{
    let mut m = m;
    if m.provider.unicode_len() == 0 {
        m.provider = to_owned(hint);
    }
    push_model(out, m);
}

/// Collect the models found in `value` under provider `hint`.
fn collect_models(value: &Json, hint: &str, out: &mut Vec<PiModel>)
    ensures
        model_views(final(out)@) == model_views(old(out)@) + collect_spec(*value, hint@),
    decreases *value,
{
    match value {
        Json::Array(items) => {
            let ghost start = model_views(out@);
            let mut i: usize = 0;
            while i < items.len()
                invariant
                    i <= items.len(),
                    *value == Json::Array(*items),
                    model_views(out@) == start + collect_items(items@, i as int, hint@),
                decreases items.len() - i,
            {
                proof {
                    assert(decreases_to!(*value => (*value)->Array_0));
                    assert(decreases_to!(*items => items@));
                    assert(decreases_to!(items@ => items@[i as int]));
                }
                let ghost before = model_views(out@);
                match parse_model(&items[i]) {
                    Some(m) => {
                        push_hinted(out, m, hint);
                    },
                    None => {
                        collect_models(&items[i], hint, out);
                    },
                }
                assert(model_views(out@) =~= start + collect_items(items@, i + 1, hint@));
                i = i + 1;
            }
        },
        Json::Object(members) => {
            match parse_model(value) {
                Some(m) => {
                    let ghost before = model_views(out@);
                    push_hinted(out, m, hint);
                    assert(model_views(out@) =~= before + seq![with_hint(m@, hint@)]);
                },
                None => {
                    let ghost start = model_views(out@);
                    let mut i: usize = 0;
                    while i < members.len()
                        invariant
                            i <= members.len(),
                            *value == Json::Object(*members),
                            parse_model_spec(*value) is None,
                            model_views(out@) == start + collect_members(members@, i as int, hint@),
                        decreases members.len() - i,
                    {
                        proof {
                            assert(decreases_to!(*value => (*value)->Object_0));
                            assert(decreases_to!(*members => members@));
                            assert(decreases_to!(members@ => members@[i as int]));
                            assert(decreases_to!(members@[i as int] => members@[i as int].1));
                        }
                        let child = &members[i].1;
                        let next: &str = match child {
                            Json::Array(_) => members[i].0.as_str(),
                            _ => hint,
                        };
                        collect_models(child, next, out);
                        assert(model_views(out@) =~= start + collect_members(members@, i + 1, hint@));
                        i = i + 1;
                    }
                },
            }
        },
        Json::Str(id) => {
            let label = if hint.unicode_len() == 0 {
                id.clone()
            } else {
                let mut l = to_owned(hint);
                push_str(&mut l, "/");
                push_str(&mut l, id.as_str());
                l
            };
            let ghost before = model_views(out@);
            push_model(
                out,
                PiModel {
                    provider: to_owned(hint),
                    id: id.clone(),
                    label,
                    context_window: None,
                    reasoning: false,
                    accepts_images: false,
                    thinking_levels: Vec::new(),
                },
            );
            assert(level_views(Seq::<String>::empty()) =~= Seq::<Seq<char>>::empty());
            assert(model_views(out@) =~= before + collect_spec(*value, hint@));
        },
        _ => {
            assert(model_views(out@) =~= model_views(out@) + collect_spec(*value, hint@));
        },
    }
}

// ─── Stable ordering by a text key ───────────────────────────────────────────

/// Where a stable sort puts an element with key `k` among the already
/// sorted `s`: after every element whose key is not greater.
pub open spec fn key_slot<A>(s: Seq<A>, key: spec_fn(A) -> Seq<char>, k: Seq<char>) -> int
    decreases s.len(),
{
    if s.len() == 0 {
        0
    } else if lex_lt(k, key(s.last())) {
        key_slot(s.drop_last(), key, k)
    } else {
        s.len() as int
    }
}

/// `s` stably sorted by `key` (`sort_by` on the key's text order).
pub open spec fn sort_by_key<A>(s: Seq<A>, key: spec_fn(A) -> Seq<char>) -> Seq<A>
    decreases s.len(),
{
    if s.len() == 0 {
        s
    } else {
        let t = sort_by_key(s.drop_last(), key);
        t.insert(key_slot(t, key, key(s.last())), s.last())
    }
}

proof fn lemma_slot_range<A>(s: Seq<A>, key: spec_fn(A) -> Seq<char>, k: Seq<char>)
    ensures
        0 <= key_slot(s, key, k) <= s.len(),
    decreases s.len(),
{
    if s.len() > 0 {
        lemma_slot_range(s.drop_last(), key, k);
    }
}

/// The label of a model.
pub open spec fn label_key() -> spec_fn(ModelView) -> Seq<char> {
    |m: ModelView| m.label
}

/// `s` without the models that repeat the provider and id of the model kept
/// just before them (`dedup_by`).
pub open spec fn dedup_models(s: Seq<ModelView>) -> Seq<ModelView>
    decreases s.len(),
{
    if s.len() == 0 {
        s
    } else {
        let d = dedup_models(s.drop_last());
        if d.len() > 0 && d.last().provider == s.last().provider && d.last().id == s.last().id {
            d
        } else {
            d.push(s.last())
        }
    }
}

/// Where Pi lists its models: `models`, else `availableModels`, else the
/// value itself.
pub open spec fn models_source(v: Json) -> Json {
    match field(v, "models"@) {
        Some(x) => x,
        None => match field(v, "availableModels"@) {
            Some(x) => x,
            None => v,
        },
    }
}

/// The models of a `get_available_models` response: collected, stably
/// sorted by label, with repeats of a provider and id dropped.
pub open spec fn parse_models_spec(v: Json) -> Seq<ModelView> {
    dedup_models(sort_by_key(collect_spec(models_source(v), Seq::empty()), label_key()))
}

fn model_slot(sorted: &Vec<PiModel>, label: &str) -> (r: usize)
    ensures
        r == key_slot(model_views(sorted@), label_key(), label@),
{
    let mut i: usize = sorted.len();
    assert(model_views(sorted@).take(i as int) =~= model_views(sorted@));
    while i > 0
        invariant
            i <= sorted.len(),
            key_slot(model_views(sorted@), label_key(), label@) == key_slot(
                model_views(sorted@).take(i as int),
                label_key(),
                label@,
            ),
        decreases i,
    {
        let ghost t = model_views(sorted@).take(i as int);
        assert(t.last() == sorted@[i - 1]@);
        if !lex_lt_exec(label, sorted[i - 1].label.as_str()) {
            return i;
        }
        assert(t.drop_last() =~= model_views(sorted@).take(i - 1));
        i = i - 1;
    }
    0
}

/// The models of a `get_available_models` response (see
/// [`parse_models_spec`]).
pub fn parse_models(value: &Json) -> (r: Vec<PiModel>)
    ensures
        model_views(r@) == parse_models_spec(*value),
{
    let source = match value.get("models") {
        Some(x) => x,
        None => match value.get("availableModels") {
            Some(x) => x,
            None => value,
        },
    };
    let mut models: Vec<PiModel> = Vec::new();
    proof {
        reveal_strlit("");
        assert(""@ =~= Seq::<char>::empty());
    }
    collect_models(source, "", &mut models);
    assert(model_views(models@) =~= collect_spec(models_source(*value), Seq::empty()));
    let ghost all = model_views(models@);
    let mut sorted: Vec<PiModel> = Vec::new();
    let mut i: usize = 0;
    assert(all.take(0) =~= Seq::<ModelView>::empty());
    while i < models.len()
        invariant
            i <= models.len(),
            all == model_views(models@),
            model_views(sorted@) == sort_by_key(all.take(i as int), label_key()),
        decreases models.len() - i,
    {
        let ghost pre = all.take(i + 1);
        assert(pre.drop_last() =~= all.take(i as int));
        assert(pre.last() == models@[i as int]@);
        let c = models[i].clone();
        let k = model_slot(&sorted, models[i].label.as_str());
        proof {
            lemma_slot_range(model_views(sorted@), label_key(), c@.label);
        }
        let ghost before = model_views(sorted@);
        sorted.insert(k, c);
        assert(model_views(sorted@) =~= before.insert(k as int, c@));
        i = i + 1;
    }
    assert(all.take(models.len() as int) =~= all);
    let ghost s = model_views(sorted@);
    let mut out: Vec<PiModel> = Vec::new();
    let mut j: usize = 0;
    assert(s.take(0) =~= Seq::<ModelView>::empty());
    while j < sorted.len()
        invariant
            j <= sorted.len(),
            s == model_views(sorted@),
            model_views(out@) == dedup_models(s.take(j as int)),
        decreases sorted.len() - j,
    {
        let ghost pre = s.take(j + 1);
        assert(pre.drop_last() =~= s.take(j as int));
        assert(pre.last() == sorted@[j as int]@);
        let n = out.len();
        let repeat = n > 0 && str_eq(out[n - 1].provider.as_str(), sorted[j].provider.as_str()) && str_eq(
            out[n - 1].id.as_str(),
            sorted[j].id.as_str(),
        );
        if !repeat {
            let c = sorted[j].clone();
            push_model(&mut out, c);
        }
        j = j + 1;
    }
    assert(s.take(sorted.len() as int) =~= s);
    out
}

// ─── Commands ────────────────────────────────────────────────────────────────

/// `(name, description, source)` of a command.
pub open spec fn command_view(c: PiCommand) -> (Seq<char>, Seq<char>, Seq<char>) {
    (c.name@, c.description@, c.source@)
}

pub open spec fn command_list_views(v: Seq<PiCommand>) -> Seq<(Seq<char>, Seq<char>, Seq<char>)> {
    v.map_values(|c: PiCommand| command_view(c))
}

/// A command entry: its name (`name`, `command` or `id`, without leading
/// slashes), description and source; `None` without a name.
pub open spec fn parse_command_spec(item: Json) -> Option<(Seq<char>, Seq<char>, Seq<char>)> {
    match first_str(item, seq!["name"@, "command"@, "id"@]) {
        None => None,
        Some(n) => Some(
            (
                trim_start_char(n, '/'),
                or_empty(first_str(item, seq!["description"@, "help"@, "title"@])),
                or_empty(first_str(item, seq!["source"@, "origin"@])),
            ),
        ),
    }
}

/// The commands of the first `n` items.
pub open spec fn commands_upto(items: Seq<Json>, n: int) -> Seq<(Seq<char>, Seq<char>, Seq<char>)>
    decreases n,
{
    if n <= 0 || n > items.len() {
        Seq::empty()
    } else {
        match parse_command_spec(items[n - 1]) {
            Some(c) => commands_upto(items, n - 1).push(c),
            None => commands_upto(items, n - 1),
        }
    }
}

/// The name of a command.
pub open spec fn name_key() -> spec_fn((Seq<char>, Seq<char>, Seq<char>)) -> Seq<char> {
    |c: (Seq<char>, Seq<char>, Seq<char>)| c.0
}

/// `s` without the commands that repeat the name of the command kept just
/// before them.
pub open spec fn dedup_commands(s: Seq<(Seq<char>, Seq<char>, Seq<char>)>) -> Seq<(Seq<char>, Seq<char>, Seq<char>)>
    decreases s.len(),
{
    if s.len() == 0 {
        s
    } else {
        let d = dedup_commands(s.drop_last());
        if d.len() > 0 && d.last().0 == s.last().0 {
            d
        } else {
            d.push(s.last())
        }
    }
}

/// The commands of a `get_commands` response: the items of `commands` (or of
/// the value itself) that name a command, stably sorted by name, with
/// repeated names dropped.
pub open spec fn parse_commands_spec(v: Json) -> Seq<(Seq<char>, Seq<char>, Seq<char>)> {
    let source = match field(v, "commands"@) {
        Some(x) => x,
        None => v,
    };
    match source {
        Json::Array(items) => dedup_commands(sort_by_key(commands_upto(items@, items@.len() as int), name_key())),
        _ => Seq::empty(),
    }
}

fn command_slot(sorted: &Vec<PiCommand>, name: &str) -> (r: usize)
    ensures
        r == key_slot(command_list_views(sorted@), name_key(), name@),
{
    let mut i: usize = sorted.len();
    assert(command_list_views(sorted@).take(i as int) =~= command_list_views(sorted@));
    while i > 0
        invariant
            i <= sorted.len(),
            key_slot(command_list_views(sorted@), name_key(), name@) == key_slot(
                command_list_views(sorted@).take(i as int),
                name_key(),
                name@,
            ),
        decreases i,
    {
        let ghost t = command_list_views(sorted@).take(i as int);
        assert(t.last() == command_view(sorted@[i - 1]));
        if !lex_lt_exec(name, sorted[i - 1].name.as_str()) {
            return i;
        }
        assert(t.drop_last() =~= command_list_views(sorted@).take(i - 1));
        i = i - 1;
    }
    0
}

fn copy_command(c: &PiCommand) -> (r: PiCommand)
    ensures
        command_view(r) == command_view(*c),
{
    PiCommand { name: c.name.clone(), description: c.description.clone(), source: c.source.clone() }
}

/// The commands of a `get_commands` response (see [`parse_commands_spec`]).
pub fn parse_commands(value: &Json) -> (r: Vec<PiCommand>)
    ensures
        command_list_views(r@) == parse_commands_spec(*value),
{
    let source = match value.get("commands") {
        Some(x) => x,
        None => value,
    };
    let items = match source {
        Json::Array(items) => items,
        _ => return Vec::new(),
    };
    let mut raw: Vec<PiCommand> = Vec::new();
    let mut i: usize = 0;
    while i < items.len()
        invariant
            i <= items.len(),
            command_list_views(raw@) == commands_upto(items@, i as int),
        decreases items.len() - i,
    {
        let item = &items[i];
        match str3(item, "name", "command", "id") {
            Some(n) => {
                let c = PiCommand {
                    name: trim_start_matches_char(n, '/'),
                    description: str_or_empty(str3(item, "description", "help", "title")),
                    source: str_or_empty(str2(item, "source", "origin")),
                };
                let ghost before = command_list_views(raw@);
                raw.push(c);
                assert(command_list_views(raw@) =~= before.push(command_view(c)));
            },
            None => {},
        }
        i = i + 1;
    }
    let ghost all = command_list_views(raw@);
    let mut sorted: Vec<PiCommand> = Vec::new();
    let mut k: usize = 0;
    assert(all.take(0) =~= Seq::<(Seq<char>, Seq<char>, Seq<char>)>::empty());
    while k < raw.len()
        invariant
            k <= raw.len(),
            all == command_list_views(raw@),
            command_list_views(sorted@) == sort_by_key(all.take(k as int), name_key()),
        decreases raw.len() - k,
    {
        let ghost pre = all.take(k + 1);
        assert(pre.drop_last() =~= all.take(k as int));
        assert(pre.last() == command_view(raw@[k as int]));
        let c = copy_command(&raw[k]);
        let at = command_slot(&sorted, raw[k].name.as_str());
        proof {
            lemma_slot_range(command_list_views(sorted@), name_key(), c.name@);
        }
        let ghost before = command_list_views(sorted@);
        sorted.insert(at, c);
        assert(command_list_views(sorted@) =~= before.insert(at as int, command_view(c)));
        k = k + 1;
    }
    assert(all.take(raw.len() as int) =~= all);
    let ghost s = command_list_views(sorted@);
    let mut out: Vec<PiCommand> = Vec::new();
    let mut j: usize = 0;
    assert(s.take(0) =~= Seq::<(Seq<char>, Seq<char>, Seq<char>)>::empty());
    while j < sorted.len()
        invariant
            j <= sorted.len(),
            s == command_list_views(sorted@),
            command_list_views(out@) == dedup_commands(s.take(j as int)),
        decreases sorted.len() - j,
    {
        let ghost pre = s.take(j + 1);
        assert(pre.drop_last() =~= s.take(j as int));
        assert(pre.last() == command_view(sorted@[j as int]));
        let n = out.len();
        if !(n > 0 && str_eq(out[n - 1].name.as_str(), sorted[j].name.as_str())) {
            let c = copy_command(&sorted[j]);
            let ghost before = command_list_views(out@);
            out.push(c);
            assert(command_list_views(out@) =~= before.push(command_view(c)));
        }
        j = j + 1;
    }
    assert(s.take(sorted.len() as int) =~= s);
    out
}


// ─── History ─────────────────────────────────────────────────────────────────

/// Pi history projected onto the pager's items: tool calls and images stay
/// first-class so replay reuses the native renderers.
#[derive(Debug)]
pub enum PiHistoryItem {
    UserText(String),
    UserImage { data: String, mime_type: String },
    AgentText(String),
    AgentThought(String),
    ToolStart { id: String, name: String, arguments: Option<Json> },
    ToolEnd {
        id: String,
        name: String,
        content: Vec<PiToolContent>,
        raw_output: Option<Json>,
        is_error: bool,
    },
}

/// Abstract value of a [`PiToolContent`].
pub enum ToolContentView {
    Text(Seq<char>),
    /// `(data, mime type)`.
    Image(Seq<char>, Seq<char>),
}

/// Abstract value of a [`PiHistoryItem`].
pub enum HistoryView {
    UserText(Seq<char>),
    /// `(data, mime type)`.
    UserImage(Seq<char>, Seq<char>),
    AgentText(Seq<char>),
    AgentThought(Seq<char>),
    /// `(id, name, arguments)`.
    ToolStart(Seq<char>, Seq<char>, Option<JsonModel>),
    /// `(id, name, content, raw output, is error)`.
    ToolEnd(Seq<char>, Seq<char>, Seq<ToolContentView>, Option<JsonModel>, bool),
}

pub open spec fn tool_content_view(c: PiToolContent) -> ToolContentView {
    match c {
        PiToolContent::Text(t) => ToolContentView::Text(t@),
        PiToolContent::Image { data, mime_type } => ToolContentView::Image(data@, mime_type@),
    }
}

pub open spec fn tool_content_views(v: Seq<PiToolContent>) -> Seq<ToolContentView> {
    v.map_values(|c: PiToolContent| tool_content_view(c))
}

pub open spec fn history_view(h: PiHistoryItem) -> HistoryView {
    match h {
        PiHistoryItem::UserText(t) => HistoryView::UserText(t@),
        PiHistoryItem::UserImage { data, mime_type } => HistoryView::UserImage(data@, mime_type@),
        PiHistoryItem::AgentText(t) => HistoryView::AgentText(t@),
        PiHistoryItem::AgentThought(t) => HistoryView::AgentThought(t@),
        PiHistoryItem::ToolStart { id, name, arguments } => HistoryView::ToolStart(id@, name@, opt_model(arguments)),
        PiHistoryItem::ToolEnd { id, name, content, raw_output, is_error } => HistoryView::ToolEnd(
            id@,
            name@,
            tool_content_views(content@),
            opt_model(raw_output),
            is_error,
        ),
    }
}

pub open spec fn history_views(v: Seq<PiHistoryItem>) -> Seq<HistoryView> {
    v.map_values(|h: PiHistoryItem| history_view(h))
}

/// The kind of a content block: `type` (or `kind`), trimmed, lower-case.
pub open spec fn content_kind(v: Json) -> Seq<char> {
    lower(trim(or_empty(first_str(v, seq!["type"@, "kind"@]))))
}

/// The text of a content block.
pub open spec fn content_text(v: Json) -> Option<Seq<char>> {
    first_str(v, seq!["text"@, "content"@, "message"@, "output"@])
}

/// The data and mime type of an image block.
pub open spec fn image_content(v: Json) -> Option<(Seq<char>, Seq<char>)> {
    match (first_str(v, seq!["data"@]), first_str(v, seq!["mimeType"@, "mime_type"@])) {
        (Some(d), Some(m)) => Some((d, m)),
        _ => None,
    }
}

/// `[x]` when present.
pub open spec fn opt_item(x: Option<HistoryView>) -> Seq<HistoryView> {
    match x {
        Some(h) => seq![h],
        None => Seq::empty(),
    }
}

/// A user text, when not empty.
pub open spec fn user_text_item(t: Option<Seq<char>>) -> Option<HistoryView> {
    match t {
        Some(x) => Some(HistoryView::UserText(x)),
        None => None,
    }
}

/// One block of a user message.
pub open spec fn user_block(item: Json) -> Option<HistoryView> {
    if content_kind(item) == "image"@ {
        match image_content(item) {
            Some((d, m)) => Some(HistoryView::UserImage(d, m)),
            None => None,
        }
    } else {
        user_text_item(content_text(item))
    }
}

/// The blocks of the first `n` items of a user message.
pub open spec fn user_blocks(items: Seq<Json>, n: int) -> Seq<HistoryView>
    decreases n,
{
    if n <= 0 || n > items.len() {
        Seq::empty()
    } else {
        user_blocks(items, n - 1) + opt_item(user_block(items[n - 1]))
    }
}

/// The items of a user message's content.
pub open spec fn user_content(v: Json) -> Seq<HistoryView>
    decreases v,
{
    match v {
        Json::Str(t) => if t@.len() > 0 {
            seq![HistoryView::UserText(t@)]
        } else {
            Seq::empty()
        },
        Json::Array(items) => user_blocks(items@, items@.len() as int),
        Json::Object(_) => match field(v, "content"@) {
            Some(c) => {
                proof {
                    lemma_field_decreases(v, "content"@);
                }
                user_content(c)
            },
            None => opt_item(user_text_item(content_text(v))),
        },
        _ => Seq::empty(),
    }
}

/// One block of agent content.
pub open spec fn agent_block(item: Json) -> Option<HistoryView> {
    let k = content_kind(item);
    if k == "thinking"@ || k == "reasoning"@ {
        match first_str(item, seq!["thinking"@, "reasoning"@, "text"@]) {
            Some(t) => Some(HistoryView::AgentThought(t)),
            None => None,
        }
    } else {
        match content_text(item) {
            Some(t) => Some(HistoryView::AgentText(t)),
            None => None,
        }
    }
}

/// The blocks of the first `n` items of agent content.
pub open spec fn agent_blocks(items: Seq<Json>, n: int) -> Seq<HistoryView>
    decreases n,
{
    if n <= 0 || n > items.len() {
        Seq::empty()
    } else {
        agent_blocks(items, n - 1) + opt_item(agent_block(items[n - 1]))
    }
}

/// The items of agent (custom or unknown) content.
pub open spec fn agent_content(v: Json) -> Seq<HistoryView>
    decreases v,
{
    match v {
        Json::Str(t) => if t@.len() > 0 {
            seq![HistoryView::AgentText(t@)]
        } else {
            Seq::empty()
        },
        Json::Array(items) => agent_blocks(items@, items@.len() as int),
        Json::Object(_) => match field(v, "content"@) {
            Some(c) => {
                proof {
                    lemma_field_decreases(v, "content"@);
                }
                agent_content(c)
            },
            None => match content_text(v) {
                Some(t) => seq![HistoryView::AgentText(t)],
                None => Seq::empty(),
            },
        },
        _ => Seq::empty(),
    }
}

/// The id of a tool call without one: `pi-history-tool-<message>-<block>`.
pub open spec fn tool_id(message_index: nat, block_index: nat) -> Seq<char> {
    "pi-history-tool-"@ + decimal(message_index) + "-"@ + decimal(block_index)
}

/// The arguments of a tool call: `arguments`, `args` or `input`.
pub open spec fn tool_arguments(item: Json) -> Option<Json> {
    match field(item, "arguments"@) {
        Some(a) => Some(a),
        None => match field(item, "args"@) {
            Some(a) => Some(a),
            None => field(item, "input"@),
        },
    }
}

/// One block of an assistant message.
pub open spec fn assistant_block(item: Json, message_index: nat, block_index: nat) -> Option<HistoryView> {
    let k = content_kind(item);
    if k == "thinking"@ || k == "reasoning"@ {
        match first_str(item, seq!["thinking"@, "reasoning"@, "text"@]) {
            Some(t) => if t.len() > 0 {
                Some(HistoryView::AgentThought(t))
            } else {
                None
            },
            None => None,
        }
    } else if k == "toolcall"@ || k == "tool_call"@ || k == "tool"@ {
        Some(
            HistoryView::ToolStart(
                match first_str(item, seq!["id"@, "toolCallId"@, "tool_call_id"@]) {
                    Some(i) => i,
                    None => tool_id(message_index, block_index),
                },
                match first_str(item, seq!["name"@, "toolName"@, "tool_name"@]) {
                    Some(n) => n,
                    None => "Tool"@,
                },
                opt_model(tool_arguments(item)),
            ),
        )
    } else {
        match content_text(item) {
            Some(t) => if t.len() > 0 {
                Some(HistoryView::AgentText(t))
            } else {
                None
            },
            None => None,
        }
    }
}

/// The blocks of the first `n` items of an assistant message.
pub open spec fn assistant_blocks(items: Seq<Json>, n: int, message_index: nat) -> Seq<HistoryView>
    decreases n,
{
    if n <= 0 || n > items.len() {
        Seq::empty()
    } else {
        assistant_blocks(items, n - 1, message_index) + opt_item(
            assistant_block(items[n - 1], message_index, (n - 1) as nat),
        )
    }
}

/// The error line of an assistant message.
pub open spec fn assistant_error(v: Json) -> Seq<HistoryView> {
    match first_str(v, seq!["errorMessage"@, "error_message"@]) {
        Some(e) => if e.len() > 0 {
            seq![HistoryView::AgentText("**Pi error:** "@ + e)]
        } else {
            Seq::empty()
        },
        None => Seq::empty(),
    }
}

/// The items of an assistant message, then its error.
pub open spec fn assistant_items(v: Json, message_index: nat) -> Seq<HistoryView> {
    let body = match field(v, "content"@) {
        None => match content_text(v) {
            Some(t) => seq![HistoryView::AgentText(t)],
            None => Seq::empty(),
        },
        Some(Json::Str(t)) => if t@.len() > 0 {
            seq![HistoryView::AgentText(t@)]
        } else {
            Seq::empty()
        },
        Some(Json::Array(items)) => assistant_blocks(items@, items@.len() as int, message_index),
        Some(c) => if c is Object {
            agent_content(c)
        } else {
            Seq::empty()
        },
    };
    body + assistant_error(v)
}

/// One block of a tool result's content.
pub open spec fn result_block(item: Json) -> Seq<ToolContentView> {
    if content_kind(item) == "image"@ {
        match image_content(item) {
            Some((d, m)) => seq![ToolContentView::Image(d, m)],
            None => Seq::empty(),
        }
    } else {
        match content_text(item) {
            Some(t) => seq![ToolContentView::Text(t)],
            None => Seq::empty(),
        }
    }
}

/// The blocks of the first `n` items of a tool result's content.
pub open spec fn result_blocks(items: Seq<Json>, n: int) -> Seq<ToolContentView>
    decreases n,
{
    if n <= 0 || n > items.len() {
        Seq::empty()
    } else {
        result_blocks(items, n - 1) + result_block(items[n - 1])
    }
}

/// A tool result: nothing without a tool call id.
pub open spec fn tool_result_items(v: Json) -> Seq<HistoryView> {
    match first_str(v, seq!["toolCallId"@, "tool_call_id"@, "id"@]) {
        None => Seq::empty(),
        Some(id) => seq![
            HistoryView::ToolEnd(
                id,
                match first_str(v, seq!["toolName"@, "tool_name"@, "name"@]) {
                    Some(n) => n,
                    None => "Tool"@,
                },
                match field(v, "content"@) {
                    Some(Json::Array(items)) => result_blocks(items@, items@.len() as int),
                    Some(Json::Str(t)) => seq![ToolContentView::Text(t@)],
                    _ => Seq::empty(),
                },
                opt_model(
                    match field(v, "details"@) {
                        Some(d) => Some(d),
                        None => field(v, "content"@),
                    },
                ),
                bool_of(field(v, "isError"@)) == Some(true),
            ),
        ],
    }
}

/// `text`, then a blank line unless it is empty, then `tail`.
pub open spec fn append_para(text: Seq<char>, tail: Seq<char>) -> Seq<char> {
    if text.len() > 0 {
        text + "\n\n"@ + tail
    } else {
        tail
    }
}

/// The output shown for a shell run.
pub open spec fn bash_text(v: Json) -> Seq<char> {
    let out = or_empty(first_str(v, seq!["output"@]));
    if bool_of(field(v, "cancelled"@)) == Some(true) {
        append_para(out, "Command cancelled"@)
    } else {
        match i64_of(field(v, "exitCode"@)) {
            Some(code) => if code != 0 {
                append_para(out, "Command exited with code "@ + i64_text(code))
            } else {
                out
            },
            None => out,
        }
    }
}

/// A shell run: the call and its result.
pub open spec fn bash_items(v: Json, message_index: nat) -> Seq<HistoryView> {
    let id = "pi-history-bash-"@ + decimal(message_index);
    let text = bash_text(v);
    seq![
        HistoryView::ToolStart(
            id,
            "bash"@,
            Some(JsonModel::Object(seq![("command"@, JsonModel::Str(or_empty(first_str(v, seq!["command"@]))))])),
        ),
        HistoryView::ToolEnd(
            id,
            "bash"@,
            if text.len() > 0 {
                seq![ToolContentView::Text(text)]
            } else {
                Seq::empty()
            },
            opt_model(field(v, "output"@)),
            bool_of(field(v, "cancelled"@)) == Some(true) || match i64_of(field(v, "exitCode"@)) {
                Some(code) => code != 0,
                None => false,
            },
        ),
    ]
}

/// A summary line.
pub open spec fn summary_items(v: Json, title: Seq<char>) -> Seq<HistoryView> {
    match first_str(v, seq!["summary"@, "text"@]) {
        Some(s) => seq![HistoryView::AgentText(title + s)],
        None => Seq::empty(),
    }
}

/// The items of one message of Pi's history (the entry itself, or its
/// `message`), by role.
pub open spec fn message_items(entry: Json, message_index: nat) -> Seq<HistoryView> {
    let v = member_or_self(entry, "message"@);
    let role = lower(or_empty(first_str(v, seq!["role"@, "type"@])));
    if role == "user"@ {
        user_content(member_or_self(v, "content"@))
    } else if role == "assistant"@ {
        assistant_items(v, message_index)
    } else if role == "toolresult"@ || role == "tool_result"@ {
        tool_result_items(v)
    } else if role == "bashexecution"@ || role == "bash_execution"@ {
        bash_items(v, message_index)
    } else if role == "custom"@ {
        if bool_of(field(v, "display"@)) != Some(false) {
            agent_content(member_or_self(v, "content"@))
        } else {
            Seq::empty()
        }
    } else if role == "branchsummary"@ || role == "branch_summary"@ {
        summary_items(v, "**Branch summary**\n\n"@)
    } else if role == "compactionsummary"@ || role == "compaction_summary"@ {
        summary_items(v, "**Compaction summary**\n\n"@)
    } else {
        agent_content(member_or_self(v, "content"@))
    }
}

/// The items of the first `n` messages.
pub open spec fn history_upto(messages: Seq<Json>, n: int) -> Seq<HistoryView>
    decreases n,
{
    if n <= 0 || n > messages.len() {
        Seq::empty()
    } else {
        history_upto(messages, n - 1) + message_items(messages[n - 1], (n - 1) as nat)
    }
}

/// The history of a `get_messages` response: the messages of `messages`,
/// else of `history`, else of the value itself, when it is a list.
pub open spec fn parse_messages_spec(v: Json) -> Seq<HistoryView> {
    let source = match field(v, "messages"@) {
        Some(x) => x,
        None => match field(v, "history"@) {
            Some(x) => x,
            None => v,
        },
    };
    match source {
        Json::Array(items) => history_upto(items@, items@.len() as int),
        _ => Seq::empty(),
    }
}

fn push_item(out: &mut Vec<PiHistoryItem>, h: PiHistoryItem)
    ensures
        history_views(final(out)@) == history_views(old(out)@).push(history_view(h)),
{
    let ghost before = history_views(out@);
    out.push(h);
    assert(history_views(out@) =~= before.push(history_view(h)));
}

fn content_kind_exec(v: &Json) -> (r: String)
    ensures
        r@ == content_kind(*v),
{
    let k = str_or_empty(str2(v, "type", "kind"));
    let t = trim_str(k.as_str());
    to_ascii_lowercase(t.as_str())
}

fn content_text_exec<'a>(v: &'a Json) -> (r: Option<&'a str>)
    ensures
        opt_str_view(r) == content_text(*v),
{
    str4(v, "text", "content", "message", "output")
}

fn image_content_exec(v: &Json) -> (r: Option<(String, String)>)
    ensures
        match r {
            Some((d, m)) => image_content(*v) == Some((d@, m@)),
            None => image_content(*v) is None,
        },
{
    match str1(v, "data") {
        Some(d) => match str2(v, "mimeType", "mime_type") {
            Some(m) => Some((to_owned(d), to_owned(m))),
            None => None,
        },
        None => None,
    }
}

fn clone_opt(v: Option<&Json>) -> (r: Option<Json>)
    ensures
        opt_model(r) == opt_model(opt_deref(v)),
{
    match v {
        Some(x) => Some(x.deep_clone()),
        None => None,
    }
}

fn push_user_content(v: &Json, out: &mut Vec<PiHistoryItem>)
    ensures
        history_views(final(out)@) == history_views(old(out)@) + user_content(*v),
    decreases *v,
{
    let ghost start = history_views(out@);
    match v {
        Json::Str(t) => {
            if t.unicode_len() > 0 {
                push_item(out, PiHistoryItem::UserText(t.clone()));
            }
            assert(history_views(out@) =~= start + user_content(*v));
        },
        Json::Array(items) => {
            let mut i: usize = 0;
            while i < items.len()
                invariant
                    i <= items.len(),
                    history_views(out@) == start + user_blocks(items@, i as int),
                decreases items.len() - i,
            {
                let item = &items[i];
                let kind = content_kind_exec(item);
                if str_eq(kind.as_str(), "image") {
                    match image_content_exec(item) {
                        Some((d, m)) => push_item(out, PiHistoryItem::UserImage { data: d, mime_type: m }),
                        None => {},
                    }
                } else {
                    match content_text_exec(item) {
                        Some(t) => push_item(out, PiHistoryItem::UserText(to_owned(t))),
                        None => {},
                    }
                }
                assert(history_views(out@) =~= start + user_blocks(items@, i + 1));
                i = i + 1;
            }
        },
        Json::Object(_) => {
            match v.get("content") {
                Some(c) => {
                    proof {
                        lemma_field_decreases(*v, "content"@);
                    }
                    push_user_content(c, out);
                },
                None => {
                    match content_text_exec(v) {
                        Some(t) => push_item(out, PiHistoryItem::UserText(to_owned(t))),
                        None => {},
                    }
                    assert(history_views(out@) =~= start + user_content(*v));
                },
            }
        },
        _ => {
            assert(history_views(out@) =~= start + user_content(*v));
        },
    }
}

fn is_thinking_kind(k: &str) -> (r: bool)
    ensures
        r == (k@ == "thinking"@ || k@ == "reasoning"@),
{
    str_eq(k, "thinking") || str_eq(k, "reasoning")
}

fn push_agent_content(v: &Json, out: &mut Vec<PiHistoryItem>)
    ensures
        history_views(final(out)@) == history_views(old(out)@) + agent_content(*v),
    decreases *v,
{
    let ghost start = history_views(out@);
    match v {
        Json::Str(t) => {
            if t.unicode_len() > 0 {
                push_item(out, PiHistoryItem::AgentText(t.clone()));
            }
            assert(history_views(out@) =~= start + agent_content(*v));
        },
        Json::Array(items) => {
            let mut i: usize = 0;
            while i < items.len()
                invariant
                    i <= items.len(),
                    history_views(out@) == start + agent_blocks(items@, i as int),
                decreases items.len() - i,
            {
                let item = &items[i];
                let kind = content_kind_exec(item);
                if is_thinking_kind(kind.as_str()) {
                    match str3(item, "thinking", "reasoning", "text") {
                        Some(t) => push_item(out, PiHistoryItem::AgentThought(to_owned(t))),
                        None => {},
                    }
                } else {
                    match content_text_exec(item) {
                        Some(t) => push_item(out, PiHistoryItem::AgentText(to_owned(t))),
                        None => {},
                    }
                }
                assert(history_views(out@) =~= start + agent_blocks(items@, i + 1));
                i = i + 1;
            }
        },
        Json::Object(_) => {
            match v.get("content") {
                Some(c) => {
                    proof {
                        lemma_field_decreases(*v, "content"@);
                    }
                    push_agent_content(c, out);
                },
                None => {
                    match content_text_exec(v) {
                        Some(t) => push_item(out, PiHistoryItem::AgentText(to_owned(t))),
                        None => {},
                    }
                    assert(history_views(out@) =~= start + agent_content(*v));
                },
            }
        },
        _ => {
            assert(history_views(out@) =~= start + agent_content(*v));
        },
    }
}

fn tool_id_exec(message_index: usize, block_index: usize) -> (r: String)
    ensures
        r@ == tool_id(message_index as nat, block_index as nat),
{
    let mut s = to_owned("pi-history-tool-");
    push_decimal(&mut s, message_index as u64);
    push_str(&mut s, "-");
    push_decimal(&mut s, block_index as u64);
    s
}

fn push_assistant(v: &Json, message_index: usize, out: &mut Vec<PiHistoryItem>)
    ensures
        history_views(final(out)@) == history_views(old(out)@) + assistant_items(*v, message_index as nat),
{
    let ghost start = history_views(out@);
    match v.get("content") {
        None => {
            match content_text_exec(v) {
                Some(t) => push_item(out, PiHistoryItem::AgentText(to_owned(t))),
                None => {},
            }
        },
        Some(Json::Str(t)) => {
            if t.unicode_len() > 0 {
                push_item(out, PiHistoryItem::AgentText(t.clone()));
            }
        },
        Some(Json::Array(items)) => {
            let mut i: usize = 0;
            while i < items.len()
                invariant
                    i <= items.len(),
                    history_views(out@) == start + assistant_blocks(items@, i as int, message_index as nat),
                decreases items.len() - i,
            {
                let item = &items[i];
                let kind = content_kind_exec(item);
                let ks = kind.as_str();
                if is_thinking_kind(ks) {
                    match str3(item, "thinking", "reasoning", "text") {
                        Some(t) => if t.unicode_len() > 0 {
                            push_item(out, PiHistoryItem::AgentThought(to_owned(t)));
                        },
                        None => {},
                    }
                } else if str_eq(ks, "toolcall") || str_eq(ks, "tool_call") || str_eq(ks, "tool") {
                    let id = match str3(item, "id", "toolCallId", "tool_call_id") {
                        Some(x) => to_owned(x),
                        None => tool_id_exec(message_index, i),
                    };
                    let name = match str3(item, "name", "toolName", "tool_name") {
                        Some(x) => to_owned(x),
                        None => to_owned("Tool"),
                    };
                    let args = match item.get("arguments") {
                        Some(a) => Some(a),
                        None => match item.get("args") {
                            Some(a) => Some(a),
                            None => item.get("input"),
                        },
                    };
                    assert(opt_deref(args) == tool_arguments(*item));
                    push_item(out, PiHistoryItem::ToolStart { id, name, arguments: clone_opt(args) });
                } else {
                    match content_text_exec(item) {
                        Some(t) => if t.unicode_len() > 0 {
                            push_item(out, PiHistoryItem::AgentText(to_owned(t)));
                        },
                        None => {},
                    }
                }
                assert(history_views(out@) =~= start + assistant_blocks(items@, i + 1, message_index as nat));
                i = i + 1;
            }
        },
        Some(c) => {
            match c {
                Json::Object(_) => push_agent_content(c, out),
                _ => {},
            }
        },
    }
    let ghost mid = history_views(out@);
    match str2(v, "errorMessage", "error_message") {
        Some(e) => if e.unicode_len() > 0 {
            let mut text = to_owned("**Pi error:** ");
            push_str(&mut text, e);
            push_item(out, PiHistoryItem::AgentText(text));
        },
        None => {},
    }
    assert(history_views(out@) =~= mid + assistant_error(*v));
    assert(history_views(out@) =~= start + assistant_items(*v, message_index as nat));
}

fn push_content(out: &mut Vec<PiToolContent>, c: PiToolContent)
    ensures
        tool_content_views(final(out)@) == tool_content_views(old(out)@).push(tool_content_view(c)),
{
    let ghost before = tool_content_views(out@);
    out.push(c);
    assert(tool_content_views(out@) =~= before.push(tool_content_view(c)));
}

fn push_tool_result(v: &Json, out: &mut Vec<PiHistoryItem>)
    ensures
        history_views(final(out)@) == history_views(old(out)@) + tool_result_items(*v),
{
    let ghost start = history_views(out@);
    let id = match str3(v, "toolCallId", "tool_call_id", "id") {
        Some(x) => to_owned(x),
        None => {
            assert(history_views(out@) =~= start + tool_result_items(*v));
            return;
        },
    };
    let name = match str3(v, "toolName", "tool_name", "name") {
        Some(x) => to_owned(x),
        None => to_owned("Tool"),
    };
    let mut content: Vec<PiToolContent> = Vec::new();
    let ghost expected = match field(*v, "content"@) {
        Some(Json::Array(items)) => result_blocks(items@, items@.len() as int),
        Some(Json::Str(t)) => seq![ToolContentView::Text(t@)],
        _ => Seq::<ToolContentView>::empty(),
    };
    match v.get("content") {
        Some(Json::Array(items)) => {
            let mut i: usize = 0;
            assert(tool_content_views(content@) =~= Seq::<ToolContentView>::empty());
            while i < items.len()
                invariant
                    i <= items.len(),
                    tool_content_views(content@) == result_blocks(items@, i as int),
                decreases items.len() - i,
            {
                let item = &items[i];
                let kind = content_kind_exec(item);
                if str_eq(kind.as_str(), "image") {
                    match image_content_exec(item) {
                        Some((d, m)) => push_content(&mut content, PiToolContent::Image { data: d, mime_type: m }),
                        None => {},
                    }
                } else {
                    match content_text_exec(item) {
                        Some(t) => push_content(&mut content, PiToolContent::Text(to_owned(t))),
                        None => {},
                    }
                }
                assert(tool_content_views(content@) =~= result_blocks(items@, i + 1));
                i = i + 1;
            }
        },
        Some(Json::Str(t)) => {
            push_content(&mut content, PiToolContent::Text(t.clone()));
            assert(tool_content_views(content@) =~= seq![ToolContentView::Text(t@)]);
        },
        _ => {
            assert(tool_content_views(content@) =~= Seq::<ToolContentView>::empty());
        },
    }
    assert(tool_content_views(content@) == expected);
    let raw = match v.get("details") {
        Some(d) => Some(d),
        None => v.get("content"),
    };
    let raw_output = clone_opt(raw);
    let is_error = get_bool(v, "isError") == Some(true);
    push_item(out, PiHistoryItem::ToolEnd { id, name, content, raw_output, is_error });
    assert(history_views(out@) =~= start + tool_result_items(*v));
}

fn push_bash(v: &Json, message_index: usize, out: &mut Vec<PiHistoryItem>)
    ensures
        history_views(final(out)@) == history_views(old(out)@) + bash_items(*v, message_index as nat),
{
    let ghost start = history_views(out@);
    let mut id = to_owned("pi-history-bash-");
    push_decimal(&mut id, message_index as u64);
    let command = str_or_empty(str1(v, "command"));
    let mut args: Vec<(String, Json)> = Vec::new();
    args.push((to_owned("command"), Json::Str(command)));
    let arguments = crate::json::object(args);
    assert(member_models(args@) =~= seq![("command"@, JsonModel::Str(or_empty(first_str(*v, seq!["command"@]))))]);
    push_item(out, PiHistoryItem::ToolStart { id: id.clone(), name: to_owned("bash"), arguments: Some(arguments) });
    let mut text = str_or_empty(str1(v, "output"));
    let cancelled = get_bool(v, "cancelled") == Some(true);
    let mut failed = cancelled;
    if cancelled {
        if text.unicode_len() > 0 {
            push_str(&mut text, "\n\n");
        }
        push_str(&mut text, "Command cancelled");
    } else {
        match get_i64(v, "exitCode") {
            Some(code) => if code != 0 {
                failed = true;
                if text.unicode_len() > 0 {
                    push_str(&mut text, "\n\n");
                }
                push_str(&mut text, "Command exited with code ");
                let c = i64_to_string(code);
                push_str(&mut text, c.as_str());
            },
            None => {},
        }
    }
    assert(text@ == bash_text(*v));
    assert(failed == (bool_of(field(*v, "cancelled"@)) == Some(true) || match i64_of(field(*v, "exitCode"@)) {
        Some(code) => code != 0,
        None => false,
    }));
    let ghost tv = text@;
    let mut content: Vec<PiToolContent> = Vec::new();
    assert(tool_content_views(content@) =~= Seq::<ToolContentView>::empty());
    if text.unicode_len() > 0 {
        push_content(&mut content, PiToolContent::Text(text));
        assert(tool_content_views(content@) =~= seq![ToolContentView::Text(tv)]);
    }
    let raw_output = clone_opt(v.get("output"));
    push_item(out, PiHistoryItem::ToolEnd { id, name: to_owned("bash"), content, raw_output, is_error: failed });
    assert(history_views(out@) =~= start + bash_items(*v, message_index as nat));
}

fn push_summary(v: &Json, title: &str, out: &mut Vec<PiHistoryItem>)
    ensures
        history_views(final(out)@) == history_views(old(out)@) + summary_items(*v, title@),
{
    let ghost start = history_views(out@);
    match str2(v, "summary", "text") {
        Some(s) => {
            let mut t = to_owned(title);
            push_str(&mut t, s);
            push_item(out, PiHistoryItem::AgentText(t));
        },
        None => {},
    }
    assert(history_views(out@) =~= start + summary_items(*v, title@));
}

fn push_message(entry: &Json, message_index: usize, out: &mut Vec<PiHistoryItem>)
    ensures
        history_views(final(out)@) == history_views(old(out)@) + message_items(*entry, message_index as nat),
{
    let v = member_or_self_exec(entry, "message");
    let role_raw = str_or_empty(str2(v, "role", "type"));
    let role = to_ascii_lowercase(role_raw.as_str());
    let r = role.as_str();
    if str_eq(r, "user") {
        push_user_content(member_or_self_exec(v, "content"), out);
    } else if str_eq(r, "assistant") {
        push_assistant(v, message_index, out);
    } else if str_eq(r, "toolresult") || str_eq(r, "tool_result") {
        push_tool_result(v, out);
    } else if str_eq(r, "bashexecution") || str_eq(r, "bash_execution") {
        push_bash(v, message_index, out);
    } else if str_eq(r, "custom") {
        if get_bool(v, "display") != Some(false) {
            push_agent_content(member_or_self_exec(v, "content"), out);
        } else {
            assert(history_views(out@) =~= history_views(out@) + Seq::<HistoryView>::empty());
        }
    } else if str_eq(r, "branchsummary") || str_eq(r, "branch_summary") {
        push_summary(v, "**Branch summary**\n\n", out);
    } else if str_eq(r, "compactionsummary") || str_eq(r, "compaction_summary") {
        push_summary(v, "**Compaction summary**\n\n", out);
    } else {
        push_agent_content(member_or_self_exec(v, "content"), out);
    }
}

/// The history of a `get_messages` response (see [`parse_messages_spec`]).
pub fn parse_messages(value: &Json) -> (r: Vec<PiHistoryItem>)
    ensures
        history_views(r@) == parse_messages_spec(*value),
{
    let source = match value.get("messages") {
        Some(x) => x,
        None => match value.get("history") {
            Some(x) => x,
            None => value,
        },
    };
    let mut out: Vec<PiHistoryItem> = Vec::new();
    match source {
        Json::Array(items) => {
            let mut i: usize = 0;
            assert(history_views(out@) =~= Seq::<HistoryView>::empty());
            while i < items.len()
                invariant
                    i <= items.len(),
                    history_views(out@) == history_upto(items@, i as int),
                decreases items.len() - i,
            {
                push_message(&items[i], i, &mut out);
                i = i + 1;
            }
        },
        _ => {
            assert(history_views(out@) =~= Seq::<HistoryView>::empty());
        },
    }
    out
}

// ─── Streaming deltas and display text ───────────────────────────────────────

/// A streaming event's `(text, thinking)` delta: the event (or its
/// `assistantMessageEvent` / `messageEvent`) names its kind; thinking and
/// reasoning kinds give thinking, other text kinds give text, the rest
/// (tool-call fragments) nothing.
pub open spec fn delta_spec(v: Json) -> (Seq<char>, Seq<char>) {
    let nested = match field(v, "assistantMessageEvent"@) {
        Some(x) => x,
        None => match field(v, "messageEvent"@) {
            Some(x) => x,
            None => v,
        },
    };
    let kind = lower(or_empty(first_str(nested, seq!["type"@, "kind"@])));
    let delta = or_empty(first_str(nested, seq!["delta"@, "textDelta"@, "contentDelta"@, "text"@, "chunk"@]));
    if has_infix(kind, "thinking"@) || has_infix(kind, "reasoning"@) {
        (Seq::empty(), delta)
    } else if has_infix(kind, "text"@) {
        (delta, Seq::empty())
    } else {
        (Seq::empty(), Seq::empty())
    }
}

/// The `(text, thinking)` delta of a streaming event (see [`delta_spec`]).
pub fn extract_delta(value: &Json) -> (r: (String, String))
    ensures
        (r.0@, r.1@) == delta_spec(*value),
{
    let nested = match value.get("assistantMessageEvent") {
        Some(x) => x,
        None => match value.get("messageEvent") {
            Some(x) => x,
            None => value,
        },
    };
    let kind_raw = str_or_empty(str2(nested, "type", "kind"));
    let kind = to_ascii_lowercase(kind_raw.as_str());
    let delta = str_or_empty(str5(nested, "delta", "textDelta", "contentDelta", "text", "chunk"));
    if contains_text(kind.as_str(), "thinking") || contains_text(kind.as_str(), "reasoning") {
        (String::new(), delta)
    } else if contains_text(kind.as_str(), "text") {
        (delta, String::new())
    } else {
        (String::new(), String::new())
    }
}

/// A value as display text: nothing for `null`, a string's text, else
/// pretty-printed JSON.
pub open spec fn json_text_spec(v: Json) -> Seq<char> {
    match v {
        Json::Null => Seq::empty(),
        Json::Str(t) => t@,
        _ => crate::json::serde_pretty_text(v@),
    }
}

/// A value as display text (see [`json_text_spec`]).
pub fn json_text(value: &Json) -> (r: String)
    ensures
        r@ == json_text_spec(*value),
{
    match value {
        Json::Null => String::new(),
        Json::Str(t) => t.clone(),
        _ => to_pretty_string(value),
    }
}


// ─── Scanning a session store ────────────────────────────────────────────────

/// The sessions of the files `(path, lines)` that parse, in file order.
pub open spec fn parsed_sessions(files: Seq<(String, Vec<Option<Json>>)>) -> Seq<SessionView>
    decreases files.len(),
{
    if files.len() == 0 {
        Seq::empty()
    } else {
        let rest = parsed_sessions(files.drop_last());
        match session_file_spec(files.last().0@, files.last().1@) {
            Some(v) => rest.push(v),
            None => rest,
        }
    }
}

/// The sessions of a store's files, newest first.
pub open spec fn scan_sessions_spec(files: Seq<(String, Vec<Option<Json>>)>) -> Seq<SessionView> {
    sort_desc_by_key(parsed_sessions(files), modified_key())
}

/// The sessions of the working directory `cwd`: all sessions of its project
/// directory when the store has one, else the sessions of the store's root
/// whose header names `cwd`; newest first.
pub open spec fn scan_for_cwd_spec(
    project_dir_exists: bool,
    files: Seq<(String, Vec<Option<Json>>)>,
    cwd: Seq<char>,
) -> Seq<SessionView> {
    if project_dir_exists {
        sort_desc_by_key(scan_sessions_spec(files), modified_key())
    } else {
        sort_desc_by_key(scan_sessions_spec(files).filter(|v: SessionView| v.cwd == cwd), modified_key())
    }
}

/// The sessions of a store whose `.jsonl` files were read as `(path, lines)`
/// (each line parsed as JSON, `None` where it is not JSON), newest first.
pub fn scan_local_sessions(files: &Vec<(String, Vec<Option<Json>>)>) -> (r: Vec<PiSessionInfo>)
    ensures
        session_views(r@) == scan_sessions_spec(files@),
{
    let mut parsed: Vec<PiSessionInfo> = Vec::new();
    let mut i: usize = 0;
    while i < files.len()
        invariant
            i <= files.len(),
            session_views(parsed@) == parsed_sessions(files@.take(i as int)),
        decreases files.len() - i,
    {
        assert(files@.take(i + 1).drop_last() =~= files@.take(i as int));
        match parse_session_file(files[i].0.as_str(), &files[i].1) {
            Some(s) => {
                let ghost before = parsed@;
                parsed.push(s);
                assert(session_views(parsed@) =~= session_views(before).push(session_view(s)));
            },
            None => {},
        }
        i = i + 1;
    }
    assert(files@.take(files.len() as int) =~= files@);
    sort_sessions_by_modified(&parsed)
}

/// The sessions of `cwd`: `project_dir_exists` says whether the store has a
/// project directory for `cwd` (see [`default_session_dir_name`]), and
/// `files` are then that directory's files, else the store root's files.
pub fn scan_local_sessions_for_cwd(
    project_dir_exists: bool,
    files: &Vec<(String, Vec<Option<Json>>)>,
    cwd: &str,
) -> (r: Vec<PiSessionInfo>)
    ensures
        session_views(r@) == scan_for_cwd_spec(project_dir_exists, files@, cwd@),
{
    let all = scan_local_sessions(files);
    if project_dir_exists {
        sort_sessions_by_modified(&all)
    } else {
        let mine = filter_sessions_by_cwd(&all, cwd);
        sort_sessions_by_modified(&mine)
    }
}

// ─── Order of the catalogs ───────────────────────────────────────────────────

/// No element's key is below the key of an element before it.
pub open spec fn sorted_by<A>(s: Seq<A>, key: spec_fn(A) -> Seq<char>) -> bool {
    forall|i: int, j: int| 0 <= i < j < s.len() ==> !lex_lt(key(#[trigger] s[j]), key(#[trigger] s[i]))
}

proof fn lemma_lex_asym(a: Seq<char>, b: Seq<char>)
    requires
        lex_lt(a, b),
    ensures
        !lex_lt(b, a),
{
    if lex_lt(b, a) {
        lemma_lex_transitive(a, b, a);
        lemma_lex_irreflexive(a);
    }
}

proof fn lemma_le_trans(a: Seq<char>, b: Seq<char>, c: Seq<char>)
    requires
        !lex_lt(b, a),
        !lex_lt(c, b),
    ensures
        !lex_lt(c, a),
{
    if lex_lt(c, a) {
        lemma_lex_total(a, b);
        if lex_lt(a, b) {
            lemma_lex_transitive(c, a, b);
        }
    }
}

proof fn lemma_sorted_prefix<A>(s: Seq<A>, key: spec_fn(A) -> Seq<char>)
    requires
        sorted_by(s, key),
        s.len() > 0,
    ensures
        sorted_by(s.drop_last(), key),
{
    let t = s.drop_last();
    assert forall|i: int, j: int| 0 <= i < j < t.len() implies !lex_lt(key(#[trigger] t[j]), key(#[trigger] t[i])) by {
        assert(t[i] == s[i] && t[j] == s[j]);
    }
}

proof fn lemma_slot_props<A>(s: Seq<A>, key: spec_fn(A) -> Seq<char>, k: Seq<char>)
    requires
        sorted_by(s, key),
    ensures
        0 <= key_slot(s, key, k) <= s.len(),
        forall|i: int| key_slot(s, key, k) <= i < s.len() ==> lex_lt(k, key(#[trigger] s[i])),
        forall|i: int| 0 <= i < key_slot(s, key, k) ==> !lex_lt(k, key(#[trigger] s[i])),
    decreases s.len(),
{
    if s.len() > 0 {
        let t = s.drop_last();
        lemma_sorted_prefix(s, key);
        if lex_lt(k, key(s.last())) {
            lemma_slot_props(t, key, k);
            assert forall|i: int| key_slot(s, key, k) <= i < s.len() implies lex_lt(k, key(#[trigger] s[i])) by {
                if i < s.len() - 1 {
                    assert(s[i] == t[i]);
                }
            }
            assert forall|i: int| 0 <= i < key_slot(s, key, k) implies !lex_lt(k, key(#[trigger] s[i])) by {
                assert(s[i] == t[i]);
            }
        } else {
            assert forall|i: int| 0 <= i < key_slot(s, key, k) implies !lex_lt(k, key(#[trigger] s[i])) by {
                if i < s.len() - 1 {
                    assert(!lex_lt(key(s[s.len() - 1]), key(s[i])));
                    lemma_le_trans(key(s[i]), key(s.last()), k);
                }
            }
        }
    }
}

/// A stable sort by a text key orders the elements by that key and keeps
/// every element, as often as it occurs.
pub proof fn law_sort_by_key_sorts<A>(s: Seq<A>, key: spec_fn(A) -> Seq<char>)
    ensures
        sorted_by(sort_by_key(s, key), key),
        sort_by_key(s, key).to_multiset() == s.to_multiset(),
    decreases s.len(),
{
    broadcast use vstd::seq_lib::group_to_multiset_ensures;

    if s.len() > 0 {
        let t = sort_by_key(s.drop_last(), key);
        let x = s.last();
        let k = key(x);
        law_sort_by_key_sorts(s.drop_last(), key);
        lemma_slot_props(t, key, k);
        let p = key_slot(t, key, k);
        let u = t.insert(p, x);
        assert forall|i: int, j: int| 0 <= i < j < u.len() implies !lex_lt(key(#[trigger] u[j]), key(#[trigger] u[i])) by {
            if i < p {
                assert(u[i] == t[i]);
                if j < p {
                    assert(u[j] == t[j]);
                } else if j > p {
                    assert(u[j] == t[j - 1]);
                }
            } else if i == p {
                assert(u[j] == t[j - 1]);
                lemma_lex_asym(k, key(t[j - 1]));
            } else {
                assert(u[i] == t[i - 1]);
                assert(u[j] == t[j - 1]);
            }
        }
        assert(s =~= s.drop_last().push(x));
    }
}

proof fn lemma_dedup_models(s: Seq<ModelView>)
    requires
        sorted_by(s, label_key()),
    ensures
        sorted_by(dedup_models(s), label_key()),
        s.len() > 0 ==> forall|i: int| 0 <= i < dedup_models(s).len() ==> !lex_lt(s.last().label, (#[trigger] dedup_models(s)[i]).label),
        forall|i: int, j: int| 0 <= i && j == i + 1 && j < dedup_models(s).len() ==>
            !((#[trigger] dedup_models(s)[i]).provider == (#[trigger] dedup_models(s)[j]).provider
                && dedup_models(s)[i].id == dedup_models(s)[j].id),
    decreases s.len(),
{
    if s.len() > 0 {
        let t = s.drop_last();
        let d = dedup_models(t);
        lemma_sorted_prefix(s, label_key());
        lemma_dedup_models(t);
        let x = s.last();
        assert forall|i: int| 0 <= i < d.len() implies !lex_lt(x.label, (#[trigger] d[i]).label) by {
            if t.len() > 0 {
                assert(!lex_lt(label_key()(s[s.len() - 1]), label_key()(s[s.len() - 2])));
                lemma_le_trans(d[i].label, t.last().label, x.label);
            }
        }
        lemma_lex_irreflexive(x.label);
    }
}

proof fn lemma_dedup_commands(s: Seq<(Seq<char>, Seq<char>, Seq<char>)>)
    requires
        sorted_by(s, name_key()),
    ensures
        forall|i: int, j: int| 0 <= i < j < dedup_commands(s).len() ==>
            lex_lt((#[trigger] dedup_commands(s)[i]).0, (#[trigger] dedup_commands(s)[j]).0),
        s.len() > 0 ==> forall|i: int| 0 <= i < dedup_commands(s).len() ==> !lex_lt(s.last().0, (#[trigger] dedup_commands(s)[i]).0),
    decreases s.len(),
{
    if s.len() > 0 {
        let t = s.drop_last();
        let d = dedup_commands(t);
        lemma_sorted_prefix(s, name_key());
        lemma_dedup_commands(t);
        let x = s.last();
        assert forall|i: int| 0 <= i < d.len() implies !lex_lt(x.0, (#[trigger] d[i]).0) by {
            if t.len() > 0 {
                assert(!lex_lt(name_key()(s[s.len() - 1]), name_key()(s[s.len() - 2])));
                lemma_le_trans(d[i].0, t.last().0, x.0);
            }
        }
        lemma_lex_irreflexive(x.0);
        if !(d.len() > 0 && d.last().0 == x.0) {
            let r = d.push(x);
            if d.len() > 0 {
                lemma_lex_total(d.last().0, x.0);
            }
            assert forall|i: int, j: int| 0 <= i < j < r.len() implies lex_lt((#[trigger] r[i]).0, (#[trigger] r[j]).0) by {
                if j == d.len() {
                    assert(r[i] == d[i]);
                    if i < d.len() - 1 {
                        assert(lex_lt(d[i].0, d[d.len() - 1].0));
                        lemma_lex_transitive(d[i].0, d.last().0, x.0);
                    }
                } else {
                    assert(r[i] == d[i] && r[j] == d[j]);
                }
            }
        }
    }
}

/// The models of a `get_available_models` response are listed in label
/// order, and no model repeats the provider and id of the model listed just
/// before it.
pub proof fn law_models_in_label_order(v: Json)
    ensures
        ({
            let r = parse_models_spec(v);
            &&& forall|i: int, j: int| 0 <= i < j < r.len() ==> !lex_lt((#[trigger] r[j]).label, (#[trigger] r[i]).label)
            &&& forall|i: int, j: int| 0 <= i && j == i + 1 && j < r.len() ==>
                !((#[trigger] r[i]).provider == (#[trigger] r[j]).provider && r[i].id == r[j].id)
        }),
{
    let s = sort_by_key(collect_spec(models_source(v), Seq::empty()), label_key());
    law_sort_by_key_sorts(collect_spec(models_source(v), Seq::empty()), label_key());
    lemma_dedup_models(s);
    let r = parse_models_spec(v);
    assert forall|i: int, j: int| 0 <= i < j < r.len() implies !lex_lt((#[trigger] r[j]).label, (#[trigger] r[i]).label) by {
        assert(!lex_lt(label_key()(r[j]), label_key()(r[i])));
    }
}

/// The commands of a `get_commands` response are listed in strictly
/// increasing name order, so no name is listed twice.
pub proof fn law_commands_sorted_and_unique(v: Json)
    ensures
        forall|i: int, j: int| 0 <= i < j < parse_commands_spec(v).len() ==>
            lex_lt((#[trigger] parse_commands_spec(v)[i]).0, (#[trigger] parse_commands_spec(v)[j]).0),
{
    let source = match field(v, "commands"@) {
        Some(x) => x,
        None => v,
    };
    if let Json::Array(items) = source {
        let c = commands_upto(items@, items@.len() as int);
        law_sort_by_key_sorts(c, name_key());
        lemma_dedup_commands(sort_by_key(c, name_key()));
    }
}


} // verus!
