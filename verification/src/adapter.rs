//! The adapter's own rules between Pi and the Grok pager: where session
//! catalogs and plan files live, how language tags, efforts and model keys
//! are spelled, which commands are internal, and how replay events are held
//! back during a session switch.
use crate::json::{
    bool_of, field, first_str, get_bool, get_str, get_u64, member_models, object, opt_str_view, str1, str2,
    str_of, text_value, u64_of, Json, JsonModel, JsonNumber,
};
use crate::model::{PiState, PiModel};
use crate::path::{file_name, file_name_spec, join, join_spec, parent, parent_spec, path_starts_with, path_starts_with_spec, with_extension, with_extension_spec, with_file_name, with_file_name_spec};
use crate::queue_bridge::opt_view;
use crate::text::{chars_of, ends_with, eq_ignore_ascii_case, eq_ignore_case, has_suffix, is_blank, is_whitespace, is_ws, push_char, push_str, str_eq, string_of_range, to_owned, trim, trim_str};
use vstd::prelude::*;

verus! {

// ─── Session catalog and plan files ──────────────────────────────────────────

/// The directory whose sessions the catalog lists: the directory of Pi's
/// current session file when it lies outside the configured store (a
/// settings-configured session directory), else the configured store.
pub open spec fn catalog_dir_spec(session_file: Option<Seq<char>>, configured: Seq<char>) -> Seq<char> {
    match session_file {
        Some(f) => match parent_spec(f) {
            Some(d) => if !path_starts_with_spec(d, configured) {
                d
            } else {
                configured
            },
            None => configured,
        },
        None => configured,
    }
}

/// The session directory to list, for Pi `state` and the configured store.
pub fn catalog_session_dir(state: &PiState, configured_dir: &str) -> (r: String)
    ensures
        r@ == catalog_dir_spec(opt_view(state.session_file), configured_dir@),
{
    match &state.session_file {
        Some(f) => match parent(f.as_str()) {
            Some(d) => if !path_starts_with(d.as_str(), configured_dir) {
                d
            } else {
                to_owned(configured_dir)
            },
            None => to_owned(configured_dir),
        },
        None => to_owned(configured_dir),
    }
}

/// The plan file of a session: `<session>.plan.md` beside Pi's session file,
/// or `grok-pi-plans/<session id>.plan.md` under the store while Pi has not
/// written a session file yet.
pub open spec fn plan_file_spec(session_file: Option<Seq<char>>, session_id: Seq<char>, configured: Seq<char>) -> Seq<char> {
    match session_file {
        Some(f) => if f.len() > 0 {
            with_extension_spec(f, "plan.md"@)
        } else {
            join_spec(join_spec(configured, "grok-pi-plans"@), session_id + ".plan.md"@)
        },
        None => join_spec(join_spec(configured, "grok-pi-plans"@), session_id + ".plan.md"@),
    }
}

/// The plan sidecar that belongs to exactly one Pi JSONL session.
pub fn plan_file_path(state: &PiState, configured_dir: &str) -> (r: String)
    ensures
        r@ == plan_file_spec(opt_view(state.session_file), state.session_id@, configured_dir@),
{
    match &state.session_file {
        Some(f) => if !f.as_str().is_empty() {
            return with_extension(f.as_str(), "plan.md");
        },
        None => {},
    }
    let dir = join(configured_dir, "grok-pi-plans");
    let mut name = to_owned(state.session_id.as_str());
    push_str(&mut name, ".plan.md");
    join(dir.as_str(), name.as_str())
}

/// The plan-mode state file beside plan file `plan`: its name with a
/// trailing `.plan.md` replaced by `.plan-mode.json` (`plan.md` stands for a
/// path without a file name).
pub open spec fn plan_state_spec(plan: Seq<char>) -> Seq<char> {
    let name = match file_name_spec(plan) {
        Some(n) => n,
        None => "plan.md"@,
    };
    let base = if has_suffix(name, ".plan.md"@) {
        name.take(name.len() - 8)
    } else {
        name
    };
    with_file_name_spec(plan, base + ".plan-mode.json"@)
}

/// Where the plan-mode state of plan file `plan_file` is kept.
pub fn plan_state_path(plan_file: &str) -> (r: String)
    ensures
        r@ == plan_state_spec(plan_file@),
{
    let name = match file_name(plan_file) {
        Some(n) => n,
        None => String::from_str("plan.md"),
    };
    let ghost nv = name@;
    let mut base = if ends_with(name.as_str(), ".plan.md") {
        let v = chars_of(name.as_str());
        proof {
            reveal_strlit(".plan.md");
        }
        string_of_range(&v, 0, v.len() - 8)
    } else {
        name
    };
    assert(nv.subrange(0, nv.len() - 8) =~= nv.take(nv.len() - 8));
    push_str(&mut base, ".plan-mode.json");
    with_file_name(plan_file, base.as_str())
}

// ─── Language tags ───────────────────────────────────────────────────────────

/// A quote character that language values may be wrapped in.
pub open spec fn is_quote(c: char) -> bool {
    c == '"' || c == '\''
}

/// `s` without leading quote characters.
pub open spec fn strip_front_quotes(s: Seq<char>) -> Seq<char>
    decreases s.len(),
{
    if s.len() > 0 && is_quote(s[0]) {
        strip_front_quotes(s.drop_first())
    } else {
        s
    }
}

/// `s` without trailing quote characters.
pub open spec fn strip_back_quotes(s: Seq<char>) -> Seq<char>
    decreases s.len(),
{
    if s.len() > 0 && is_quote(s.last()) {
        strip_back_quotes(s.drop_last())
    } else {
        s
    }
}

/// The part of `s` before its first `.` (all of `s` when it has none).
pub open spec fn upto_dot(s: Seq<char>) -> Seq<char>
    decreases s.len(),
{
    if s.len() == 0 {
        s
    } else if s[0] == '.' {
        Seq::empty()
    } else {
        seq![s[0]] + upto_dot(s.drop_first())
    }
}

/// `s` with `_` written as `-`.
pub open spec fn underscores_to_dashes(s: Seq<char>) -> Seq<char> {
    s.map_values(|c: char| if c == '_' { '-' } else { c })
}

/// A locale value as a BCP-47-like tag: trimmed, unquoted, cut at the
/// codeset (`.UTF-8`), `_` written as `-`; nothing for an empty value or the
/// `C` / `POSIX` locales.
pub open spec fn language_tag_spec(value: Seq<char>) -> Option<Seq<char>> {
    let tag = underscores_to_dashes(upto_dot(strip_back_quotes(strip_front_quotes(trim(value)))));
    if tag.len() == 0 || eq_ignore_case(tag, "C"@) || eq_ignore_case(tag, "POSIX"@) {
        None
    } else {
        Some(tag)
    }
}

proof fn lemma_strip_front_skip(s: Seq<char>, k: int)
    requires
        0 <= k <= s.len(),
        forall|j: int| 0 <= j < k ==> is_quote(s[j]),
        k == s.len() || !is_quote(s[k]),
    ensures
        strip_front_quotes(s) == s.skip(k),
    decreases k,
{
    if k > 0 {
        lemma_strip_front_skip(s.drop_first(), k - 1);
        assert(s.drop_first().skip(k - 1) =~= s.skip(k));
    } else {
        assert(s.skip(0) =~= s);
    }
}

proof fn lemma_strip_back_take(s: Seq<char>, k: int)
    requires
        0 <= k <= s.len(),
        forall|j: int| k <= j < s.len() ==> is_quote(s[j]),
        k == 0 || !is_quote(s[k - 1]),
    ensures
        strip_back_quotes(s) == s.take(k),
    decreases s.len() - k,
{
    if k < s.len() {
        lemma_strip_back_take(s.drop_last(), k);
        assert(s.drop_last().take(k) =~= s.take(k));
    } else {
        assert(s.take(k) =~= s);
    }
}

proof fn lemma_upto_dot_take(s: Seq<char>, k: int)
    requires
        0 <= k <= s.len(),
        forall|j: int| 0 <= j < k ==> s[j] != '.',
        k == s.len() || s[k] == '.',
    ensures
        upto_dot(s) == s.take(k),
    decreases k,
{
    if k > 0 {
        lemma_upto_dot_take(s.drop_first(), k - 1);
        assert(seq![s[0]] + s.drop_first().take(k - 1) =~= s.take(k));
    } else {
        assert(s.take(0) =~= Seq::<char>::empty());
    }
}

/// The language tag of a locale value such as `zh_CN.UTF-8`.
pub fn normalize_language_tag(value: &str) -> (r: Option<String>)
    ensures
        match r {
            Some(t) => language_tag_spec(value@) == Some(t@),
            None => language_tag_spec(value@) is None,
        },
{
    let t = trim_str(value);
    let v = chars_of(t.as_str());
    let mut lo: usize = 0;
    while lo < v.len() && (v[lo] == '"' || v[lo] == '\'')
        invariant
            lo <= v.len(),
            forall|j: int| 0 <= j < lo ==> is_quote(v@[j]),
        decreases v.len() - lo,
    {
        lo = lo + 1;
    }
    proof {
        lemma_strip_front_skip(v@, lo as int);
    }
    let mut hi: usize = v.len();
    while hi > lo && (v[hi - 1] == '"' || v[hi - 1] == '\'')
        invariant
            lo <= hi <= v.len(),
            forall|j: int| hi <= j < v.len() ==> is_quote(v@[j]),
        decreases hi,
    {
        hi = hi - 1;
    }
    let ghost w = v@.skip(lo as int);
    proof {
        assert forall|j: int| hi - lo <= j < w.len() implies is_quote(w[j]) by {
            assert(w[j] == v@[j + lo]);
        }
        if hi > lo {
            assert(w[hi - lo - 1] == v@[hi - 1]);
        }
        lemma_strip_back_take(w, hi - lo);
    }
    let mut k: usize = lo;
    while k < hi && v[k] != '.'
        invariant
            lo <= k <= hi <= v.len(),
            forall|j: int| lo <= j < k ==> v@[j] != '.',
        decreases hi - k,
    {
        k = k + 1;
    }
    let ghost u = w.take(hi - lo);
    proof {
        assert forall|j: int| 0 <= j < k - lo implies u[j] != '.' by {
            assert(u[j] == v@[j + lo]);
        }
        if k < hi {
            assert(u[k - lo] == v@[k as int]);
        }
        lemma_upto_dot_take(u, k - lo);
    }
    let mut tag = String::new();
    let mut i: usize = lo;
    while i < k
        invariant
            lo <= i <= k <= v.len(),
            tag@ == underscores_to_dashes(v@.subrange(lo as int, i as int)),
        decreases k - i,
    {
        let c = v[i];
        push_char(&mut tag, if c == '_' { '-' } else { c });
        assert(underscores_to_dashes(v@.subrange(lo as int, i + 1)) =~= underscores_to_dashes(
            v@.subrange(lo as int, i as int),
        ).push(if c == '_' { '-' } else { c }));
        i = i + 1;
    }
    assert(u.take(k - lo) =~= v@.subrange(lo as int, k as int));
    if k == lo || eq_ignore_ascii_case(tag.as_str(), "C") || eq_ignore_ascii_case(tag.as_str(), "POSIX") {
        None
    } else {
        Some(tag)
    }
}

/// A character that separates entries of macOS's `AppleLanguages` output.
pub open spec fn apple_sep(c: char) -> bool {
    c == '(' || c == ')' || c == ',' || is_ws(c)
}

/// Splitting at separators as a left-to-right scan: the finished pieces and
/// the piece being read (empty pieces are kept, as `str::split` keeps them).
pub open spec fn apple_split_state(s: Seq<char>) -> (Seq<Seq<char>>, Seq<char>)
    decreases s.len(),
{
    if s.len() == 0 {
        (Seq::empty(), Seq::empty())
    } else {
        let (done, cur) = apple_split_state(s.drop_last());
        if apple_sep(s.last()) {
            (done.push(cur), Seq::empty())
        } else {
            (done, cur.push(s.last()))
        }
    }
}

/// The pieces of `s` between separators.
pub open spec fn apple_pieces(s: Seq<char>) -> Seq<Seq<char>> {
    let (done, cur) = apple_split_state(s);
    done.push(cur)
}

/// The first piece that is a language tag, as a tag.
pub open spec fn first_tag(pieces: Seq<Seq<char>>) -> Option<Seq<char>>
    decreases pieces.len(),
{
    if pieces.len() == 0 {
        None
    } else {
        match language_tag_spec(pieces[0]) {
            Some(t) => Some(t),
            None => first_tag(pieces.drop_first()),
        }
    }
}

proof fn lemma_first_tag_append(a: Seq<Seq<char>>, b: Seq<Seq<char>>)
    requires
        first_tag(a) is None,
    ensures
        first_tag(a + b) == first_tag(b),
    decreases a.len(),
{
    if a.len() > 0 {
        lemma_first_tag_append(a.drop_first(), b);
        assert((a + b).drop_first() =~= a.drop_first() + b);
    } else {
        assert(a + b =~= b);
    }
}

/// The first preferred language in macOS's `defaults read -g AppleLanguages`
/// output.
pub fn first_apple_language(value: &str) -> (r: Option<String>)
    ensures
        match r {
            Some(t) => first_tag(apple_pieces(value@)) == Some(t@),
            None => first_tag(apple_pieces(value@)) is None,
        },
{
    let v = chars_of(value);
    let mut pieces: Vec<String> = Vec::new();
    let mut cur: Vec<char> = Vec::new();
    let mut i: usize = 0;
    while i < v.len()
        invariant
            v@ == value@,
            i <= v.len(),
            (pieces.deep_view(), cur@) == apple_split_state(v@.take(i as int)),
        decreases v.len() - i,
    {
        let c = v[i];
        assert(v@.take(i + 1).drop_last() =~= v@.take(i as int));
        if c == '(' || c == ')' || c == ',' || is_whitespace(c) {
            let piece = crate::text::string_of(&cur);
            pieces.push(piece);
            cur = Vec::new();
            assert(pieces.deep_view() =~= apple_split_state(v@.take(i as int)).0.push(
                apple_split_state(v@.take(i as int)).1,
            ));
            assert(cur@ =~= Seq::<char>::empty());
        } else {
            cur.push(c);
        }
        i = i + 1;
    }
    assert(v@.take(v.len() as int) =~= v@);
    let last = crate::text::string_of(&cur);
    pieces.push(last);
    let ghost all = pieces.deep_view();
    assert(all =~= apple_pieces(value@));
    let mut j: usize = 0;
    while j < pieces.len()
        invariant
            j <= pieces.len(),
            all == pieces.deep_view(),
            all == apple_pieces(value@),
            first_tag(all.take(j as int)) is None,
        decreases pieces.len() - j,
    {
        let ghost before = all.take(j as int);
        assert(all[j as int] == pieces@[j as int]@);
        assert(first_tag(Seq::<Seq<char>>::empty()) is None);
        match normalize_language_tag(pieces[j].as_str()) {
            Some(tag) => {
                proof {
                    assert(all.skip(j as int)[0] == all[j as int]);
                    assert(first_tag(all.skip(j as int)) == Some(tag@));
                    lemma_first_tag_append(before, all.skip(j as int));
                    assert(before + all.skip(j as int) =~= all);
                }
                return Some(tag);
            },
            None => {},
        }
        proof {
            assert(all.take(j + 1) =~= before + seq![all[j as int]]);
            lemma_first_tag_append(before, seq![all[j as int]]);
            assert(seq![all[j as int]].drop_first() =~= Seq::<Seq<char>>::empty());
        }
        j = j + 1;
    }
    assert(all.take(pieces.len() as int) =~= all);
    None
}


// ─── Commands, efforts and model labels ──────────────────────────────────────

/// Internal bridge command: navigate Pi's session tree.
pub const NAVIGATE_TREE_COMMAND: &'static str = "__pi_navigate_tree";
/// Internal bridge command: label a session tree entry.
pub const LABEL_TREE_COMMAND: &'static str = "__pi_tree_label";
/// Internal bridge command: reload Pi's session resources.
pub const RELOAD_COMMAND: &'static str = "__pi_reload";
/// Internal bridge command: cancel a subagent.
pub const SUBAGENT_CANCEL_COMMAND: &'static str = "__pi_grok_subagent_cancel";
/// Internal bridge command: request a session recap.
pub const RECAP_COMMAND: &'static str = "__pi_grok_recap";
/// Internal bridge command: write the context breakdown.
pub const CONTEXT_BREAKDOWN_COMMAND: &'static str = "__pi_context_breakdown";
/// Internal bridge command: spawn a workflow agent.
pub const WORKFLOW_SPAWN_COMMAND: &'static str = "__pi_workflow_spawn";
/// Internal bridge command: cancel a workflow agent.
pub const WORKFLOW_CANCEL_COMMAND: &'static str = "__pi_workflow_cancel";

/// Whether `name` is one of the adapter's internal bridge commands (ASCII
/// case ignored); these are never offered in the slash menu.
pub open spec fn is_bridge_spec(name: Seq<char>) -> bool {
    ||| eq_ignore_case(name, "__pi_navigate_tree"@)
    ||| eq_ignore_case(name, "__pi_tree_label"@)
    ||| eq_ignore_case(name, "__pi_reload"@)
    ||| eq_ignore_case(name, "__pi_grok_subagent_cancel"@)
    ||| eq_ignore_case(name, "__pi_grok_recap"@)
    ||| eq_ignore_case(name, "__pi_context_breakdown"@)
    ||| eq_ignore_case(name, "__pi_workflow_spawn"@)
    ||| eq_ignore_case(name, "__pi_workflow_cancel"@)
}

/// Whether `name` is an internal bridge command.
pub fn is_bridge_command(name: &str) -> (r: bool)
    ensures
        r == is_bridge_spec(name@),
{
    eq_ignore_ascii_case(name, NAVIGATE_TREE_COMMAND) || eq_ignore_ascii_case(name, LABEL_TREE_COMMAND)
        || eq_ignore_ascii_case(name, RELOAD_COMMAND) || eq_ignore_ascii_case(
        name,
        SUBAGENT_CANCEL_COMMAND,
    ) || eq_ignore_ascii_case(name, RECAP_COMMAND) || eq_ignore_ascii_case(
        name,
        CONTEXT_BREAKDOWN_COMMAND,
    ) || eq_ignore_ascii_case(name, WORKFLOW_SPAWN_COMMAND) || eq_ignore_ascii_case(
        name,
        WORKFLOW_CANCEL_COMMAND,
    )
}

/// The slash message that runs `command` with `args`.
pub open spec fn bridge_message_spec(command: Seq<char>, args: Seq<char>) -> Seq<char> {
    if trim(args).len() == 0 {
        "/"@ + command
    } else {
        "/"@ + command + " "@ + args
    }
}

/// The slash message Pi is sent to run bridge command `command`.
pub fn bridge_command_message(command: &str, args: &str) -> (r: String)
    ensures
        r@ == bridge_message_spec(command@, args@),
{
    let mut out = String::from_str("/");
    push_str(&mut out, command);
    if !is_blank(args) {
        push_str(&mut out, " ");
        push_str(&mut out, args);
    }
    out
}

/// Grok's effort for Pi thinking level `level` (ASCII case ignored;
/// unknown levels read as `medium`).
pub open spec fn acp_effort_spec(level: Seq<char>) -> Seq<char> {
    let l = crate::text::lower(level);
    if l == "off"@ || l == "none"@ {
        "none"@
    } else if l == "minimal"@ {
        "minimal"@
    } else if l == "low"@ {
        "low"@
    } else if l == "high"@ {
        "high"@
    } else if l == "xhigh"@ || l == "max"@ {
        "xhigh"@
    } else {
        "medium"@
    }
}

/// Grok's native effort for Pi thinking level `level`.
pub fn pi_effort_to_acp(level: &str) -> (r: &'static str)
    ensures
        r@ == acp_effort_spec(level@),
{
    let l = crate::text::to_ascii_lowercase(level);
    let ls = l.as_str();
    if str_eq(ls, "off") || str_eq(ls, "none") {
        "none"
    } else if str_eq(ls, "minimal") {
        "minimal"
    } else if str_eq(ls, "low") {
        "low"
    } else if str_eq(ls, "high") {
        "high"
    } else if str_eq(ls, "xhigh") || str_eq(ls, "max") {
        "xhigh"
    } else {
        "medium"
    }
}

/// The catalog key of a model: `provider::id`, or the bare id when the
/// provider is unknown.
pub open spec fn model_key_spec(provider: Seq<char>, id: Seq<char>) -> Seq<char> {
    if provider.len() == 0 {
        id
    } else {
        provider + "::"@ + id
    }
}

/// The catalog key of `model`.
pub fn model_key(model: &PiModel) -> (r: String)
    ensures
        r@ == model_key_spec(model.provider@, model.id@),
{
    if model.provider.as_str().is_empty() {
        model.id.clone()
    } else {
        let mut out = model.provider.clone();
        push_str(&mut out, "::");
        push_str(&mut out, model.id.as_str());
        out
    }
}

/// Short label of a model's wire protocol.
pub open spec fn protocol_short_spec(api: Seq<char>) -> Option<Seq<char>> {
    if api == "openai-responses"@ || api == "openai-codex-responses"@ {
        Some("resp"@)
    } else if api == "openai-completions"@ {
        Some("comp"@)
    } else if api == "anthropic-messages"@ {
        Some("anth"@)
    } else if api == "google-generative-ai"@ {
        Some("goog"@)
    } else {
        None
    }
}

/// Short label of wire protocol `api`, for the model picker.
pub fn format_protocol_short(api: &str) -> (r: Option<&'static str>)
    ensures
        match r {
            Some(s) => protocol_short_spec(api@) == Some(s@),
            None => protocol_short_spec(api@) is None,
        },
{
    if str_eq(api, "openai-responses") || str_eq(api, "openai-codex-responses") {
        Some("resp")
    } else if str_eq(api, "openai-completions") {
        Some("comp")
    } else if str_eq(api, "anthropic-messages") {
        Some("anth")
    } else if str_eq(api, "google-generative-ai") {
        Some("goog")
    } else {
        None
    }
}

/// Whether some input modality of `input` is `m` (ASCII case ignored).
pub open spec fn has_modality(input: Seq<Seq<char>>, m: Seq<char>) -> bool {
    exists|i: int| 0 <= i < input.len() && eq_ignore_case(#[trigger] input[i], m)
}

/// Short label of a model's input modalities.
pub open spec fn input_short_spec(input: Seq<Seq<char>>, accepts_images: bool) -> Seq<char> {
    if input.len() == 0 {
        if accepts_images {
            "txt+img"@
        } else {
            "txt"@
        }
    } else {
        let parts = (if has_modality(input, "text"@) {
            seq!["txt"@]
        } else {
            Seq::empty()
        }) + (if has_modality(input, "image"@) || accepts_images {
            seq!["img"@]
        } else {
            Seq::empty()
        }) + (if has_modality(input, "audio"@) {
            seq!["aud"@]
        } else {
            Seq::empty()
        });
        if parts.len() == 0 {
            "txt"@
        } else {
            crate::text::join(parts, "+"@)
        }
    }
}

fn has_modality_exec(input: &[String], m: &str) -> (r: bool)
    ensures
        r == has_modality(input@.map_values(|s: String| s@), m@),
{
    let ghost iv = input@.map_values(|s: String| s@);
    let mut i: usize = 0;
    while i < input.len()
        invariant
            i <= input.len(),
            iv == input@.map_values(|s: String| s@),
            forall|j: int| 0 <= j < i ==> !eq_ignore_case(#[trigger] iv[j], m@),
        decreases input.len() - i,
    {
        if eq_ignore_ascii_case(input[i].as_str(), m) {
            assert(eq_ignore_case(iv[i as int], m@));
            return true;
        }
        i = i + 1;
    }
    false
}

/// Short label of input modalities `input`, for the model picker.
pub fn format_input_short(input: &[String], accepts_images: bool) -> (r: String)
    ensures
        r@ == input_short_spec(input@.map_values(|s: String| s@), accepts_images),
{
    if input.len() == 0 {
        return if accepts_images {
            String::from_str("txt+img")
        } else {
            String::from_str("txt")
        };
    }
    let mut parts: Vec<String> = Vec::new();
    if has_modality_exec(input, "text") {
        parts.push(String::from_str("txt"));
    }
    if has_modality_exec(input, "image") || accepts_images {
        parts.push(String::from_str("img"));
    }
    if has_modality_exec(input, "audio") {
        parts.push(String::from_str("aud"));
    }
    let ghost iv = input@.map_values(|s: String| s@);
    let ghost expected = (if has_modality(iv, "text"@) {
        seq!["txt"@]
    } else {
        Seq::empty()
    }) + (if has_modality(iv, "image"@) || accepts_images {
        seq!["img"@]
    } else {
        Seq::empty()
    }) + (if has_modality(iv, "audio"@) {
        seq!["aud"@]
    } else {
        Seq::empty()
    });
    assert(parts.deep_view() =~= expected);
    if parts.len() == 0 {
        String::from_str("txt")
    } else {
        crate::text::join_strings(&parts, "+")
    }
}

/// Seconds a Pi request may take before it is given up (`None`: no limit).
pub open spec fn request_timeout_spec(command_type: Seq<char>) -> Option<u64> {
    if command_type == "bash"@ || command_type == "compact"@ {
        None
    } else {
        Some(300)
    }
}

/// The deadline of a Pi request, in seconds.  Pi keeps `bash` and `compact`
/// open until the operation completes, so those have none.
pub fn request_timeout(command_type: &str) -> (r: Option<u64>)
    ensures
        r == request_timeout_spec(command_type@),
{
    if str_eq(command_type, "bash") || str_eq(command_type, "compact") {
        None
    } else {
        Some(300)
    }
}

/// How full the context is when compaction starts, in percent: capped at
/// 100, and 100 for an unknown (zero) window.
pub open spec fn compaction_percentage_spec(tokens_used: u64, context_window: u64) -> u8 {
    let scaled = if tokens_used * 100 > u64::MAX { u64::MAX as int } else { tokens_used * 100 };
    if context_window == 0 {
        100
    } else if scaled / (context_window as int) > 100 {
        100
    } else {
        (scaled / (context_window as int)) as u8
    }
}

/// The context percentage reported when compaction starts.
pub fn compaction_percentage(tokens_used: u64, context_window: u64) -> (r: u8)
    ensures
        r == compaction_percentage_spec(tokens_used, context_window),
{
    let scaled: u64 = if tokens_used > u64::MAX / 100 { u64::MAX } else { tokens_used * 100 };
    let pct = match scaled.checked_div(context_window) {
        Some(q) => q,
        None => 100,
    };
    if pct > 100 {
        100
    } else {
        pct as u8
    }
}

/// Hand out operation id `*counter` and advance the counter
/// (`wrapping_add(1).max(1)`: zero is never handed out again).
pub fn allocate_operation_id(counter: &mut u64) -> (id: u64)
    ensures
        id == *old(counter),
        *final(counter) == crate::queue_bridge::next_seq_after(*old(counter)),
{
    let id = *counter;
    *counter = if *counter == u64::MAX {
        1
    } else {
        *counter + 1
    };
    id
}


// ─── Reasoning efforts ───────────────────────────────────────────────────────

/// One entry of Grok's native reasoning-effort selector.
#[derive(Debug, Clone, Copy)]
pub struct ReasoningEffort {
    pub id: &'static str,
    pub value: &'static str,
    pub label: &'static str,
}

/// `(id, value, label)` of an effort entry.
pub open spec fn effort_view(e: ReasoningEffort) -> (Seq<char>, Seq<char>, Seq<char>) {
    (e.id@, e.value@, e.label@)
}

/// Whether some entry already offers Grok's top slot.
pub open spec fn has_top_effort(effs: Seq<(Seq<char>, Seq<char>, Seq<char>)>) -> bool {
    exists|j: int| 0 <= j < effs.len() && (#[trigger] effs[j]).1 == "xhigh"@
}

/// The selector entry for Pi level `l`, given whether the top slot is
/// already offered.
pub open spec fn effort_entry(l: Seq<char>, top: bool) -> Option<(Seq<char>, Seq<char>, Seq<char>)> {
    if l == "off"@ {
        Some(("off"@, "none"@, "Off"@))
    } else if l == "minimal"@ {
        Some(("minimal"@, "minimal"@, "Minimal"@))
    } else if l == "low"@ {
        Some(("low"@, "low"@, "Low"@))
    } else if l == "medium"@ {
        Some(("medium"@, "medium"@, "Medium"@))
    } else if l == "high"@ {
        Some(("high"@, "high"@, "High"@))
    } else if (l == "xhigh"@ || l == "max"@) && !top {
        Some(("xhigh"@, "xhigh"@, "Extra high"@))
    } else {
        None
    }
}

/// The selector entries for Pi thinking levels `levels`, in their order:
/// one per known level, with `xhigh` and `max` sharing Grok's single top
/// slot (offered once).
pub open spec fn efforts_of(levels: Seq<Seq<char>>) -> Seq<(Seq<char>, Seq<char>, Seq<char>)>
    decreases levels.len(),
{
    if levels.len() == 0 {
        Seq::empty()
    } else {
        let prev = efforts_of(levels.drop_last());
        match effort_entry(levels.last(), has_top_effort(prev)) {
            Some(e) => prev.push(e),
            None => prev,
        }
    }
}

proof fn lemma_effort_entry_top(l: Seq<char>, top: bool)
    ensures
        effort_entry(l, top) matches Some(e) ==> (e.1 == "xhigh"@ <==> (l == "xhigh"@ || l
            == "max"@) && !top),
{
    reveal_strlit("xhigh");
    reveal_strlit("none");
    reveal_strlit("minimal");
    reveal_strlit("low");
    reveal_strlit("medium");
    reveal_strlit("high");
    reveal_strlit("off");
    reveal_strlit("max");
    assert("xhigh"@.len() == 5 && "none"@.len() == 4 && "minimal"@.len() == 7 && "low"@.len()
        == 3 && "medium"@.len() == 6 && "high"@.len() == 4 && "off"@.len() == 3 && "max"@.len()
        == 3);
    assert("off"@[0] == 'o' && "max"@[0] == 'm' && "low"@[0] == 'l');
    if l == "off"@ {
        assert(l != "xhigh"@ && l != "max"@ && "none"@ != "xhigh"@);
    } else if l == "minimal"@ {
        assert(l != "xhigh"@ && l != "max"@ && "minimal"@ != "xhigh"@);
    } else if l == "low"@ {
        assert(l != "xhigh"@ && l != "max"@ && "low"@ != "xhigh"@);
    } else if l == "medium"@ {
        assert(l != "xhigh"@ && l != "max"@ && "medium"@ != "xhigh"@);
    } else if l == "high"@ {
        assert(l != "xhigh"@ && l != "max"@ && "high"@ != "xhigh"@);
    }
}

/// The native reasoning-effort entries of `model`.
pub fn model_reasoning_efforts(model: &PiModel) -> (r: Vec<ReasoningEffort>)
    ensures
        r@.map_values(|e: ReasoningEffort| effort_view(e)) == efforts_of(model@.thinking_levels),
{
    let ghost lv = model@.thinking_levels;
    let mut out: Vec<ReasoningEffort> = Vec::new();
    let mut top = false;
    let mut i: usize = 0;
    while i < model.thinking_levels.len()
        invariant
            i <= model.thinking_levels.len(),
            lv == model@.thinking_levels,
            lv.len() == model.thinking_levels.len(),
            out@.map_values(|e: ReasoningEffort| effort_view(e)) == efforts_of(lv.take(i as int)),
            top == has_top_effort(efforts_of(lv.take(i as int))),
        decreases model.thinking_levels.len() - i,
    {
        let ghost prev = efforts_of(lv.take(i as int));
        assert(lv.take(i + 1).drop_last() =~= lv.take(i as int));
        assert(lv[i as int] == model.thinking_levels@[i as int]@);
        let l = model.thinking_levels[i].as_str();
        let entry: Option<ReasoningEffort> = if str_eq(l, "off") {
            Some(ReasoningEffort { id: "off", value: "none", label: "Off" })
        } else if str_eq(l, "minimal") {
            Some(ReasoningEffort { id: "minimal", value: "minimal", label: "Minimal" })
        } else if str_eq(l, "low") {
            Some(ReasoningEffort { id: "low", value: "low", label: "Low" })
        } else if str_eq(l, "medium") {
            Some(ReasoningEffort { id: "medium", value: "medium", label: "Medium" })
        } else if str_eq(l, "high") {
            Some(ReasoningEffort { id: "high", value: "high", label: "High" })
        } else if (str_eq(l, "xhigh") || str_eq(l, "max")) && !top {
            Some(ReasoningEffort { id: "xhigh", value: "xhigh", label: "Extra high" })
        } else {
            None
        };
        proof {
            lemma_effort_entry_top(lv[i as int], top);
            if has_top_effort(prev) {
                let j = choose|j: int| 0 <= j < prev.len() && (#[trigger] prev[j]).1 == "xhigh"@;
                assert(efforts_of(lv.take(i + 1))[j] == prev[j]);
            }
        }
        match entry {
            Some(e) => {
                let ghost before = out@;
                out.push(e);
                proof {
                    assert(out@.map_values(|e: ReasoningEffort| effort_view(e)) =~= before.map_values(
                        |e: ReasoningEffort| effort_view(e),
                    ).push(effort_view(e)));
                    let now = efforts_of(lv.take(i + 1));
                    assert(now[now.len() - 1] == effort_view(e));
                    if e.value@ != "xhigh"@ {
                        assert forall|j: int| 0 <= j < now.len() && (#[trigger] now[j]).1 == "xhigh"@
                            implies has_top_effort(prev) by {
                            assert(now[j] == prev[j]);
                        }
                    }
                }
                if str_eq(e.value, "xhigh") {
                    top = true;
                }
            },
            None => {},
        }
        i = i + 1;
    }
    assert(lv.take(model.thinking_levels.len() as int) =~= lv);
    out
}

proof fn lemma_top_effort_unique(levels: Seq<Seq<char>>)
    ensures
        forall|a: int, b: int|
            0 <= a < b < efforts_of(levels).len() && (#[trigger] efforts_of(levels)[a]).1 == "xhigh"@
                ==> (#[trigger] efforts_of(levels)[b]).1 != "xhigh"@,
    decreases levels.len(),
{
    if levels.len() > 0 {
        lemma_top_effort_unique(levels.drop_last());
        let prev = efforts_of(levels.drop_last());
        let now = efforts_of(levels);
        lemma_effort_entry_top(levels.last(), has_top_effort(prev));
        assert forall|a: int, b: int|
            0 <= a < b < now.len() && (#[trigger] now[a]).1 == "xhigh"@ implies (#[trigger] now[b]).1
            != "xhigh"@ by {
            assert(now[a] == prev[a]);
            if b < prev.len() {
                assert(now[b] == prev[b]);
            } else {
                assert(has_top_effort(prev));
            }
        }
    }
}

/// Grok's top effort slot is offered at most once, whatever levels the
/// model lists.
pub proof fn law_top_effort_offered_once(levels: Seq<Seq<char>>, a: int, b: int)
    requires
        0 <= a < efforts_of(levels).len(),
        0 <= b < efforts_of(levels).len(),
        efforts_of(levels)[a].1 == "xhigh"@,
        efforts_of(levels)[b].1 == "xhigh"@,
    ensures
        a == b,
{
    lemma_top_effort_unique(levels);
    if a < b {
        assert(efforts_of(levels)[b].1 != "xhigh"@);
    } else if b < a {
        assert(efforts_of(levels)[a].1 != "xhigh"@);
    }
}


// ─── Command catalog ─────────────────────────────────────────────────────────

/// A slash command offered to the pager.
#[derive(Debug, Clone)]
pub struct CatalogCommand {
    pub name: String,
    pub description: String,
    /// Where Pi got the command (`extension`, `prompt`, `skill`, …).
    pub source: Option<String>,
    /// Free-form input hint.
    pub hint: Option<String>,
}

/// `(name, description, source, hint)` of a catalog command.
pub open spec fn catalog_view(c: CatalogCommand) -> (Seq<char>, Seq<char>, Option<Seq<char>>, Option<Seq<char>>) {
    (c.name@, c.description@, opt_view(c.source), opt_view(c.hint))
}

/// The commands offered to the pager, and their ASCII-lowercased names.
pub struct CommandCatalog {
    entries: Vec<CatalogCommand>,
    seen: Vec<String>,
}

/// Abstract catalog: entries and the lowercased names taken.
pub closed spec fn catalog_state(c: CommandCatalog) -> (Seq<(Seq<char>, Seq<char>, Option<Seq<char>>, Option<Seq<char>>)>, Seq<Seq<char>>) {
    (c.entries@.map_values(|e: CatalogCommand| catalog_view(e)), c.seen.deep_view())
}

/// `s` without leading `/` characters.
pub open spec fn strip_front_slashes(s: Seq<char>) -> Seq<char>
    decreases s.len(),
{
    if s.len() > 0 && s[0] == '/' {
        strip_front_slashes(s.drop_first())
    } else {
        s
    }
}

/// The description shown for a Pi command: its own, else one naming its
/// source, else a generic one.
pub open spec fn command_description(description: Seq<char>, source: Seq<char>) -> Seq<char> {
    if trim(description).len() == 0 {
        if trim(source).len() == 0 {
            "Pi command"@
        } else {
            "Pi "@ + source + " command"@
        }
    } else {
        description
    }
}

/// The catalog of Pi commands `cmds` (`(name, description, source)`), in
/// order: names trimmed and without leading `/`; empty names, internal bridge
/// commands and names already taken (ASCII case ignored) are left out.
pub open spec fn catalog_walk(cmds: Seq<(Seq<char>, Seq<char>, Seq<char>)>) -> (Seq<(Seq<char>, Seq<char>, Option<Seq<char>>, Option<Seq<char>>)>, Seq<Seq<char>>)
    decreases cmds.len(),
{
    if cmds.len() == 0 {
        (Seq::empty(), Seq::empty())
    } else {
        let (out, seen) = catalog_walk(cmds.drop_last());
        let c = cmds.last();
        let n = strip_front_slashes(trim(c.0));
        if n.len() == 0 || is_bridge_spec(n) || seen.contains(crate::text::lower(n)) {
            (out, seen)
        } else {
            (
                out.push(
                    (
                        n,
                        command_description(c.1, c.2),
                        if trim(c.2).len() == 0 {
                            None
                        } else {
                            Some(c.2)
                        },
                        None,
                    ),
                ),
                seen.push(crate::text::lower(n)),
            )
        }
    }
}

/// `(name, description, source)` of Pi commands.
pub open spec fn command_views(cmds: Seq<crate::model::PiCommand>) -> Seq<(Seq<char>, Seq<char>, Seq<char>)> {
    cmds.map_values(|c: crate::model::PiCommand| (c.name@, c.description@, c.source@))
}

fn seen_contains(seen: &Vec<String>, key: &str) -> (r: bool)
    ensures
        r == seen.deep_view().contains(key@),
{
    let mut i: usize = 0;
    while i < seen.len()
        invariant
            i <= seen.len(),
            forall|j: int| 0 <= j < i ==> seen.deep_view()[j] != key@,
        decreases seen.len() - i,
    {
        if str_eq(seen[i].as_str(), key) {
            assert(seen.deep_view()[i as int] == key@);
            return true;
        }
        i = i + 1;
    }
    false
}

fn strip_front_slashes_exec(s: &str) -> (r: String)
    ensures
        r@ == strip_front_slashes(s@),
{
    let v = chars_of(s);
    let mut k: usize = 0;
    assert(v@.skip(0) =~= v@);
    while k < v.len() && v[k] == '/'
        invariant
            k <= v.len(),
            v@ == s@,
            strip_front_slashes(v@.skip(k as int)) == strip_front_slashes(s@),
        decreases v.len() - k,
    {
        assert(v@.skip(k as int).drop_first() =~= v@.skip(k + 1));
        k = k + 1;
    }
    assert(v@.subrange(k as int, v.len() as int) =~= v@.skip(k as int));
    string_of_range(&v, k, v.len())
}

/// The pager's slash catalog for Pi's commands.
pub fn command_catalog(commands: &[crate::model::PiCommand]) -> (r: CommandCatalog)
    ensures
        catalog_state(r) == catalog_walk(command_views(commands@)),
{
    let ghost cv = command_views(commands@);
    let mut cat = CommandCatalog { entries: Vec::new(), seen: Vec::new() };
    let mut i: usize = 0;
    assert(cv.take(0) =~= Seq::<(Seq<char>, Seq<char>, Seq<char>)>::empty());
    assert(catalog_state(cat).0 =~= Seq::<(Seq<char>, Seq<char>, Option<Seq<char>>, Option<Seq<char>>)>::empty());
    assert(catalog_state(cat).1 =~= Seq::<Seq<char>>::empty());
    while i < commands.len()
        invariant
            i <= commands.len(),
            cv == command_views(commands@),
            cv.len() == commands.len(),
            catalog_state(cat) == catalog_walk(cv.take(i as int)),
        decreases commands.len() - i,
    {
        let ghost prev = catalog_walk(cv.take(i as int));
        assert(cv.take(i + 1).drop_last() =~= cv.take(i as int));
        let c = &commands[i];
        assert(cv[i as int] == (c.name@, c.description@, c.source@));
        let trimmed = trim_str(c.name.as_str());
        let name = strip_front_slashes_exec(trimmed.as_str());
        let key = crate::text::to_ascii_lowercase(name.as_str());
        if !name.as_str().is_empty() && !is_bridge_command(name.as_str()) && !seen_contains(&cat.seen, key.as_str()) {
            let description = if is_blank(c.description.as_str()) {
                if is_blank(c.source.as_str()) {
                    String::from_str("Pi command")
                } else {
                    let mut d = String::from_str("Pi ");
                    push_str(&mut d, c.source.as_str());
                    push_str(&mut d, " command");
                    d
                }
            } else {
                c.description.clone()
            };
            let source = if is_blank(c.source.as_str()) {
                None
            } else {
                Some(c.source.clone())
            };
            let ghost e0 = cat.entries@;
            let ghost s0 = cat.seen@;
            let entry = CatalogCommand { name, description, source, hint: None };
            assert(catalog_view(entry) == (
                strip_front_slashes(trim(cv[i as int].0)),
                command_description(cv[i as int].1, cv[i as int].2),
                if trim(cv[i as int].2).len() == 0 {
                    None
                } else {
                    Some(cv[i as int].2)
                },
                None::<Seq<char>>,
            ));
            cat.entries.push(entry);
            cat.seen.push(key);
            proof {
                assert(cat.entries@.map_values(|e: CatalogCommand| catalog_view(e)) =~= e0.map_values(
                    |e: CatalogCommand| catalog_view(e),
                ).push(catalog_view(entry)));
                assert(cat.seen.deep_view() =~= s0.map_values(|s: String| s@).push(key@));
            }
        }
        i = i + 1;
    }
    assert(cv.take(commands.len() as int) =~= cv);
    cat
}

impl CommandCatalog {
    /// Add a command unless its name (ASCII case ignored) is taken; says
    /// whether it was added.
    pub fn push_unique(&mut self, name: &str, description: &str, hint: Option<&str>) -> (added: bool)
        ensures
            added == !catalog_state(*old(self)).1.contains(crate::text::lower(name@)),
            added ==> catalog_state(*final(self)) == (
                catalog_state(*old(self)).0.push(
                    (name@, description@, None::<Seq<char>>, crate::subagent_bridge::opt_str(hint)),
                ),
                catalog_state(*old(self)).1.push(crate::text::lower(name@)),
            ),
            !added ==> catalog_state(*final(self)) == catalog_state(*old(self)),
    {
        let key = crate::text::to_ascii_lowercase(name);
        if seen_contains(&self.seen, key.as_str()) {
            return false;
        }
        let h = match hint {
            Some(t) => Some(to_owned(t)),
            None => None,
        };
        let entry = CatalogCommand { name: to_owned(name), description: to_owned(description), source: None, hint: h };
        let ghost e0 = self.entries@;
        let ghost s0 = self.seen@;
        self.entries.push(entry);
        self.seen.push(key);
        proof {
            assert(self.entries@.map_values(|e: CatalogCommand| catalog_view(e)) =~= e0.map_values(
                |e: CatalogCommand| catalog_view(e),
            ).push(catalog_view(entry)));
            assert(self.seen.deep_view() =~= s0.map_values(|s: String| s@).push(key@));
        }
        true
    }

    /// The commands, in order.
    pub fn entries(&self) -> (r: &Vec<CatalogCommand>)
        ensures
            r@.map_values(|e: CatalogCommand| catalog_view(e)) == catalog_state(*self).0,
    {
        &self.entries
    }
}

proof fn lemma_catalog_walk(cmds: Seq<(Seq<char>, Seq<char>, Seq<char>)>)
    ensures
        ({
            let (out, seen) = catalog_walk(cmds);
            &&& seen.len() == out.len()
            &&& forall|i: int| 0 <= i < out.len() ==> #[trigger] seen[i] == crate::text::lower(out[i].0)
            &&& forall|i: int| 0 <= i < out.len() ==> (#[trigger] out[i]).0.len() > 0 && !is_bridge_spec(out[i].0)
            &&& forall|i: int, j: int| 0 <= i < j < seen.len() ==> #[trigger] seen[i] != #[trigger] seen[j]
        }),
    decreases cmds.len(),
{
    if cmds.len() > 0 {
        lemma_catalog_walk(cmds.drop_last());
        let (out, seen) = catalog_walk(cmds.drop_last());
        let n = strip_front_slashes(trim(cmds.last().0));
        if !(n.len() == 0 || is_bridge_spec(n) || seen.contains(crate::text::lower(n))) {
            let (out2, seen2) = catalog_walk(cmds);
            assert forall|i: int, j: int| 0 <= i < j < seen2.len() implies #[trigger] seen2[i] != #[trigger] seen2[j] by {
                if j == seen.len() {
                    assert(seen2[i] == seen[i]);
                    if seen[i] == crate::text::lower(n) {
                        assert(seen.contains(crate::text::lower(n)));
                    }
                } else {
                    assert(seen2[i] == seen[i]);
                    assert(seen2[j] == seen[j]);
                }
            }
            assert forall|i: int| 0 <= i < out2.len() implies #[trigger] seen2[i] == crate::text::lower(out2[i].0) by {
                if i < out.len() {
                    assert(seen2[i] == seen[i]);
                    assert(out2[i] == out[i]);
                }
            }
            assert forall|i: int| 0 <= i < out2.len() implies (#[trigger] out2[i]).0.len() > 0 && !is_bridge_spec(out2[i].0) by {
                if i < out.len() {
                    assert(out2[i] == out[i]);
                }
            }
        }
    }
}

/// The pager's slash catalog names each command once: no two entries share
/// a name up to ASCII case, no name is empty, and no internal bridge
/// command is offered.
pub proof fn law_catalog_names_unique(cmds: Seq<(Seq<char>, Seq<char>, Seq<char>)>, i: int, j: int)
    requires
        0 <= i < j < catalog_walk(cmds).0.len(),
    ensures
        crate::text::lower(catalog_walk(cmds).0[i].0) != crate::text::lower(catalog_walk(cmds).0[j].0),
        catalog_walk(cmds).0[i].0.len() > 0,
        !is_bridge_spec(catalog_walk(cmds).0[i].0),
{
    lemma_catalog_walk(cmds);
    let (out, seen) = catalog_walk(cmds);
    assert(seen[i] == crate::text::lower(out[i].0));
    assert(seen[j] == crate::text::lower(out[j].0));
    assert(seen[i] != seen[j]);
}


/// The three workflow commands that the pager offers when Pi workflows are
/// enabled: `(name, description, hint)`.
pub open spec fn workflow_fixed_commands() -> Seq<(Seq<char>, Seq<char>, Option<Seq<char>>)> {
    seq![
        ("workflow"@, "Launch a saved workflow, or manage a run (pause, resume, stop, save)"@, Some("<name> [args] | pause|resume|stop|save [name]"@)),
        ("workflows"@, "Show workflow runs (phases, agents, progress)"@, None),
        ("create-workflow"@, "Author a new multi-agent workflow"@, Some("[goal]"@)),
    ]
}

/// The catalog after offering `cmds` in turn, each unless its name is taken.
pub open spec fn push_all(st: (Seq<(Seq<char>, Seq<char>, Option<Seq<char>>, Option<Seq<char>>)>, Seq<Seq<char>>), cmds: Seq<(Seq<char>, Seq<char>, Option<Seq<char>>)>) -> (Seq<(Seq<char>, Seq<char>, Option<Seq<char>>, Option<Seq<char>>)>, Seq<Seq<char>>)
    decreases cmds.len(),
{
    if cmds.len() == 0 {
        st
    } else {
        let prev = push_all(st, cmds.drop_last());
        let c = cmds.last();
        if prev.1.contains(crate::text::lower(c.0)) {
            prev
        } else {
            (prev.0.push((c.0, c.1, None, c.2)), prev.1.push(crate::text::lower(c.0)))
        }
    }
}

/// Named workflow scripts as slash commands: `(name, "Workflow: " +
/// description, "<args>")`.
pub open spec fn listed_workflow_commands(listings: Seq<(Seq<char>, Seq<char>)>) -> Seq<(Seq<char>, Seq<char>, Option<Seq<char>>)> {
    listings.map_values(|l: (Seq<char>, Seq<char>)| (l.0, "Workflow: "@ + l.1, Some("<args>"@)))
}

impl CommandCatalog {
    fn push_each(&mut self, cmds: &Vec<(String, String, Option<String>)>)
        ensures
            catalog_state(*final(self)) == push_all(
                catalog_state(*old(self)),
                cmds@.map_values(|c: (String, String, Option<String>)| (c.0@, c.1@, opt_view(c.2))),
            ),
    {
        let ghost cv = cmds@.map_values(|c: (String, String, Option<String>)| (c.0@, c.1@, opt_view(c.2)));
        let mut i: usize = 0;
        assert(cv.take(0) =~= Seq::<(Seq<char>, Seq<char>, Option<Seq<char>>)>::empty());
        while i < cmds.len()
            invariant
                i <= cmds.len(),
                cv == cmds@.map_values(|c: (String, String, Option<String>)| (c.0@, c.1@, opt_view(c.2))),
                catalog_state(*self) == push_all(catalog_state(*old(self)), cv.take(i as int)),
            decreases cmds.len() - i,
        {
            assert(cv.take(i + 1).drop_last() =~= cv.take(i as int));
            let c = &cmds[i];
            assert(cv[i as int] == (c.0@, c.1@, opt_view(c.2)));
            let hint = match &c.2 {
                Some(h) => Some(h.as_str()),
                None => None,
            };
            assert(crate::subagent_bridge::opt_str(hint) == opt_view(c.2));
            self.push_unique(c.0.as_str(), c.1.as_str(), hint);
            i = i + 1;
        }
        assert(cv.take(cmds.len() as int) =~= cv);
    }

    /// Offer the workflow slash surface: `/workflow`, `/workflows`,
    /// `/create-workflow`, then each named workflow script of `listings`
    /// (`(name, description)`); names already taken are skipped.
    pub fn inject_workflow_commands(&mut self, listings: &Vec<(String, String)>)
        ensures
            catalog_state(*final(self)) == push_all(
                push_all(catalog_state(*old(self)), workflow_fixed_commands()),
                listed_workflow_commands(listings@.map_values(|l: (String, String)| (l.0@, l.1@))),
            ),
    {
        let mut fixed: Vec<(String, String, Option<String>)> = Vec::new();
        fixed.push((String::from_str("workflow"), String::from_str("Launch a saved workflow, or manage a run (pause, resume, stop, save)"), Some(String::from_str("<name> [args] | pause|resume|stop|save [name]"))));
        fixed.push((String::from_str("workflows"), String::from_str("Show workflow runs (phases, agents, progress)"), None));
        fixed.push((String::from_str("create-workflow"), String::from_str("Author a new multi-agent workflow"), Some(String::from_str("[goal]"))));
        assert(fixed@.map_values(|c: (String, String, Option<String>)| (c.0@, c.1@, opt_view(c.2))) =~= workflow_fixed_commands());
        self.push_each(&fixed);
        let mut listed: Vec<(String, String, Option<String>)> = Vec::new();
        let ghost lv = listings@.map_values(|l: (String, String)| (l.0@, l.1@));
        let mut i: usize = 0;
        while i < listings.len()
            invariant
                i <= listings.len(),
                lv == listings@.map_values(|l: (String, String)| (l.0@, l.1@)),
                listed@.len() == i,
                listed@.map_values(|c: (String, String, Option<String>)| (c.0@, c.1@, opt_view(c.2)))
                    == listed_workflow_commands(lv.take(i as int)),
            decreases listings.len() - i,
        {
            let mut d = String::from_str("Workflow: ");
            push_str(&mut d, listings[i].1.as_str());
            let ghost before = listed@;
            let name = listings[i].0.clone();
            let hint = String::from_str("<args>");
            assert(lv[i as int] == (listings@[i as int].0@, listings@[i as int].1@));
            let item = (name, d, Some(hint));
            assert((item.0@, item.1@, opt_view(item.2)) == listed_workflow_commands(lv.take(i + 1))[i as int]);
            listed.push(item);
            assert forall|j: int| 0 <= j < i implies {
                let c = #[trigger] listed@[j];
                (c.0@, c.1@, opt_view(c.2)) == listed_workflow_commands(lv.take(i + 1))[j]
            } by {
                assert(listed@[j] == before[j]);
                let c = before[j];
                assert(before.map_values(|c: (String, String, Option<String>)| (c.0@, c.1@, opt_view(c.2)))[j]
                    == listed_workflow_commands(lv.take(i as int))[j]);
                assert(lv.take(i as int)[j] == lv.take(i + 1)[j]);
            }
            assert(listed@.map_values(|c: (String, String, Option<String>)| (c.0@, c.1@, opt_view(c.2)))
                =~= listed_workflow_commands(lv.take(i + 1)));
            i = i + 1;
        }
        assert(lv.take(listings.len() as int) =~= lv);
        self.push_each(&listed);
    }
}

// ─── Bootstrap ───────────────────────────────────────────────────────────────

/// Pi's models with the current model added when Pi did not list it (same
/// provider and id).
pub open spec fn merged_models(models: Seq<crate::model::ModelView>, current: Option<crate::model::ModelView>) -> Seq<crate::model::ModelView> {
    match current {
        Some(c) => if exists|i: int|
            0 <= i < models.len() && (#[trigger] models[i]).provider == c.provider && models[i].id
                == c.id {
            models
        } else {
            models.push(c)
        },
        None => models,
    }
}

/// The views of a list of models.
pub open spec fn model_views(models: Seq<PiModel>) -> Seq<crate::model::ModelView> {
    models.map_values(|m: PiModel| m@)
}

/// The view of an optional model.
pub open spec fn opt_model(m: Option<PiModel>) -> Option<crate::model::ModelView> {
    match m {
        Some(x) => Some(x@),
        None => None,
    }
}

/// What Pi reported at start-up: its state, models and commands.
pub struct PiBootstrap {
    state: PiState,
    models: Vec<PiModel>,
    commands: Vec<crate::model::PiCommand>,
}

impl PiBootstrap {
    /// The state Pi reported.
    pub closed spec fn state_spec(&self) -> PiState {
        self.state
    }

    /// The models on offer.
    pub closed spec fn models_spec(&self) -> Seq<crate::model::ModelView> {
        model_views(self.models@)
    }

    /// Pi's commands.
    pub closed spec fn commands_spec(&self) -> Seq<crate::model::PiCommand> {
        self.commands@
    }

    /// Assemble the bootstrap from Pi's `get_state`, `get_available_models`
    /// and `get_commands` replies; the current model is offered even when Pi
    /// did not list it.
    pub fn from_parts(state: PiState, models: Vec<PiModel>, commands: Vec<crate::model::PiCommand>) -> (b: Self)
        ensures
            b.state_spec() == state,
            b.models_spec() == merged_models(model_views(models@), opt_model(state.model)),
            b.commands_spec() == commands@,
    {
        let mut models = models;
        let ghost mv = model_views(models@);
        match &state.model {
            Some(current) => {
                let mut found = false;
                let mut i: usize = 0;
                while i < models.len()
                    invariant
                        i <= models.len(),
                        mv == model_views(models@),
                        found <==> exists|j: int|
                            0 <= j < i && (#[trigger] mv[j]).provider == current@.provider && mv[j].id
                                == current@.id,
                    decreases models.len() - i,
                {
                    assert(mv[i as int] == models@[i as int]@);
                    if str_eq(models[i].provider.as_str(), current.provider.as_str()) && str_eq(
                        models[i].id.as_str(),
                        current.id.as_str(),
                    ) {
                        found = true;
                    }
                    i = i + 1;
                }
                if !found {
                    let c = current.clone();
                    models.push(c);
                    assert(model_views(models@) =~= mv.push(current@));
                }
            },
            None => {},
        }
        PiBootstrap { state, models, commands }
    }

    /// Pi's session id, which seeds the native session.
    pub fn session_id(&self) -> (r: &str)
        ensures
            r@ == self.state_spec().session_id@,
    {
        self.state.session_id.as_str()
    }

    /// Pi's session title, if it has one.
    pub fn session_title(&self) -> (r: Option<&str>)
        ensures
            crate::subagent_bridge::opt_str(r) == opt_view(self.state_spec().session_name),
    {
        match &self.state.session_name {
            Some(n) => Some(n.as_str()),
            None => None,
        }
    }

    /// The state Pi reported.
    pub fn state(&self) -> (r: &PiState)
        ensures
            *r == self.state_spec(),
    {
        &self.state
    }

    /// The models on offer.
    pub fn models(&self) -> (r: &Vec<PiModel>)
        ensures
            model_views(r@) == self.models_spec(),
    {
        &self.models
    }

    /// The pager's slash catalog for Pi's commands.
    pub fn command_catalog(&self) -> (r: CommandCatalog)
        ensures
            catalog_state(r) == catalog_walk(command_views(self.commands_spec())),
    {
        command_catalog(self.commands.as_slice())
    }
}

// ─── Extension dialogs ───────────────────────────────────────────────────────

/// The role of the message of a message event.
pub fn message_role(event: &Json) -> (r: Option<&str>)
    ensures
        opt_str_view(r) == match field(*event, "message"@) {
            Some(m) => first_str(m, seq!["role"@, "type"@]),
            None => None,
        },
{
    match event.get("message") {
        Some(m) => str2(m, "role", "type"),
        None => None,
    }
}

/// The tool call id under which an extension dialog is shown: the dialog's
/// id (its text, or its JSON text when it is not a string) after
/// `pi-extension-ui:`.
pub open spec fn extension_tool_call_id_spec(id: Json) -> Seq<char> {
    "pi-extension-ui:"@ + match id {
        Json::Str(s) => s@,
        _ => crate::json::serde_compact_text(id@),
    }
}

/// The tool call id of an extension dialog (see
/// [`extension_tool_call_id_spec`]).
pub fn extension_tool_call_id(id: &Json) -> (r: String)
    ensures
        r@ == extension_tool_call_id_spec(*id),
{
    let mut out = String::from_str("pi-extension-ui:");
    match id {
        Json::Str(s) => push_str(&mut out, s.as_str()),
        _ => crate::json::push_compact(&mut out, id),
    }
    out
}

/// The time an extension dialog stays open, in milliseconds: its `timeout`
/// when positive; no limit otherwise.
pub fn extension_dialog_timeout(event: &Json) -> (r: Option<u64>)
    ensures
        r == match u64_of(field(*event, "timeout"@)) {
            Some(ms) => if ms > 0 {
                Some(ms)
            } else {
                None
            },
            None => None,
        },
{
    match get_u64(event, "timeout") {
        Some(ms) => if ms > 0 {
            Some(ms)
        } else {
            None
        },
        None => None,
    }
}

/// The answer that one question's value gives: a string, or the first
/// string of a list.
pub open spec fn answer_of(v: Json) -> Option<Seq<char>> {
    match v {
        Json::Str(s) => Some(s@),
        Json::Array(items) => if items@.len() > 0 {
            str_of(Some(items@[0]))
        } else {
            None
        },
        _ => None,
    }
}

/// The first answer among the first `n` members.
pub open spec fn first_answer(members: Seq<(String, Json)>, n: int) -> Option<Seq<char>>
    decreases n,
{
    if n <= 0 || n > members.len() {
        None
    } else {
        match first_answer(members, n - 1) {
            Some(a) => Some(a),
            None => answer_of(members[n - 1].1),
        }
    }
}

/// The option that a question response selected: the first answer of its
/// `answers` object.
pub open spec fn selected_answer_spec(v: Json) -> Option<Seq<char>> {
    match field(v, "answers"@) {
        Some(Json::Object(members)) => first_answer(members@, members@.len() as int),
        _ => None,
    }
}

/// The first `notes` text among the first `n` annotations.
pub open spec fn first_notes(members: Seq<(String, Json)>, n: int) -> Option<Seq<char>>
    decreases n,
{
    if n <= 0 || n > members.len() {
        None
    } else {
        match first_notes(members, n - 1) {
            Some(a) => Some(a),
            None => str_of(field(members[n - 1].1, "notes"@)),
        }
    }
}

/// The free text that a question response carries: the first `notes` of
/// its `annotations` object.
pub open spec fn annotated_answer_spec(v: Json) -> Option<Seq<char>> {
    match field(v, "annotations"@) {
        Some(Json::Object(members)) => first_notes(members@, members@.len() as int),
        _ => None,
    }
}

fn selected_answer(value: &Json) -> (r: Option<String>)
    ensures
        opt_view(r) == selected_answer_spec(*value),
{
    let members = match value.get("answers") {
        Some(Json::Object(m)) => m,
        _ => return None,
    };
    let mut i: usize = 0;
    while i < members.len()
        invariant
            i <= members.len(),
            selected_answer_spec(*value) == first_answer(members@, members@.len() as int),
            first_answer(members@, i as int) is None,
        decreases members.len() - i,
    {
        let a: Option<String> = match &members[i].1 {
            Json::Str(s) => Some(s.clone()),
            Json::Array(items) => if items.len() > 0 {
                match items[0].as_str() {
                    Some(t) => Some(to_owned(t)),
                    None => None,
                }
            } else {
                None
            },
            _ => None,
        };
        assert(opt_view(a) == answer_of(members@[i as int].1));
        match a {
            Some(t) => {
                proof {
                    lemma_first_answer_stable(members@, i + 1);
                }
                return Some(t);
            },
            None => {},
        }
        i = i + 1;
    }
    None
}

proof fn lemma_first_answer_stable(members: Seq<(String, Json)>, n: int)
    requires
        0 <= n <= members.len(),
        first_answer(members, n) is Some,
    ensures
        first_answer(members, members.len() as int) == first_answer(members, n),
    decreases members.len() - n,
{
    if n < members.len() {
        lemma_first_answer_stable(members, n + 1);
    }
}

proof fn lemma_first_notes_stable(members: Seq<(String, Json)>, n: int)
    requires
        0 <= n <= members.len(),
        first_notes(members, n) is Some,
    ensures
        first_notes(members, members.len() as int) == first_notes(members, n),
    decreases members.len() - n,
{
    if n < members.len() {
        lemma_first_notes_stable(members, n + 1);
    }
}

fn annotated_answer(value: &Json) -> (r: Option<String>)
    ensures
        opt_view(r) == annotated_answer_spec(*value),
{
    let members = match value.get("annotations") {
        Some(Json::Object(m)) => m,
        _ => return None,
    };
    let mut i: usize = 0;
    while i < members.len()
        invariant
            i <= members.len(),
            annotated_answer_spec(*value) == first_notes(members@, members@.len() as int),
            first_notes(members@, i as int) is None,
        decreases members.len() - i,
    {
        let a = get_str(&members[i].1, "notes");
        match a {
            Some(t) => {
                proof {
                    lemma_first_notes_stable(members@, i + 1);
                }
                return Some(to_owned(t));
            },
            None => {},
        }
        i = i + 1;
    }
    None
}

/// The value that Pi expects from a question response: for `input` and
/// `editor` dialogs the free text first, for the others the selected option
/// first; then the other one; then the response's own `value`.
pub open spec fn extension_answer_spec(method: Seq<char>, v: Json) -> Option<Seq<char>> {
    let direct = str_of(field(v, "value"@));
    let (first, second) = if method == "input"@ || method == "editor"@ {
        (annotated_answer_spec(v), selected_answer_spec(v))
    } else {
        (selected_answer_spec(v), annotated_answer_spec(v))
    };
    match first {
        Some(a) => Some(a),
        None => match second {
            Some(a) => Some(a),
            None => direct,
        },
    }
}

/// Translate a question response into the value Pi expects (see
/// [`extension_answer_spec`]).
pub fn extension_answer(method: &str, value: &Json) -> (r: Option<String>)
    ensures
        opt_view(r) == extension_answer_spec(method@, *value),
{
    let free_first = str_eq(method, "input") || str_eq(method, "editor");
    let (first, second) = if free_first {
        (annotated_answer(value), selected_answer(value))
    } else {
        (selected_answer(value), annotated_answer(value))
    };
    match first {
        Some(a) => Some(a),
        None => match second {
            Some(a) => Some(a),
            None => match get_str(value, "value") {
                Some(t) => Some(to_owned(t)),
                None => None,
            },
        },
    }
}

// ─── Compaction notifications ────────────────────────────────────────────────

/// The JSON number of a count.
pub open spec fn count_model(n: u64) -> JsonModel {
    JsonModel::Number(Some(n), if n <= i64::MAX { Some(n as i64) } else { None }, Some(n), crate::text::decimal(n as nat))
}

pub(crate) fn count_value(n: u64) -> (r: Json)
    ensures
        r@ == count_model(n),
{
    Json::Number(
        JsonNumber {
            as_u64: Some(n),
            as_i64: if n <= i64::MAX as u64 { Some(n as i64) } else { None },
            rounded: Some(n),
            text: crate::text::u64_to_string(n),
        },
    )
}

pub(crate) fn member(key: &str, value: Json) -> (r: (String, Json))
    ensures
        r.0@ == key@,
        r.1 == value,
{
    (to_owned(key), value)
}

/// The notification that compaction started.
pub open spec fn compaction_start_spec(session_id: Seq<char>, event: Json, tokens_used: u64, context_window: u64) -> JsonModel {
    JsonModel::Object(
        seq![
            ("sessionId"@, JsonModel::Str(session_id)),
            (
                "update"@,
                JsonModel::Object(
                    seq![
                        ("sessionUpdate"@, JsonModel::Str("auto_compact_started"@)),
                        ("tokens_used"@, count_model(tokens_used)),
                        ("context_window"@, count_model(context_window)),
                        ("percentage"@, count_model(compaction_percentage_spec(tokens_used, context_window) as u64)),
                        (
                            "reason"@,
                            JsonModel::Str(
                                match first_str(event, seq!["reason"@]) {
                                    Some(r) => r,
                                    None => "unknown"@,
                                },
                            ),
                        ),
                    ],
                ),
            ),
        ],
    )
}

/// The session notification that compaction started (see
/// [`compaction_start_spec`]).
pub fn compaction_start_notification(session_id: &str, event: &Json, tokens_used: u64, context_window: u64) -> (r: Json)
    ensures
        r@ == compaction_start_spec(session_id@, *event, tokens_used, context_window),
{
    let pct = compaction_percentage(tokens_used, context_window);
    let reason = match str1(event, "reason") {
        Some(r) => r,
        None => "unknown",
    };
    let mut update: Vec<(String, Json)> = Vec::new();
    update.push(member("sessionUpdate", text_value("auto_compact_started")));
    update.push(member("tokens_used", count_value(tokens_used)));
    update.push(member("context_window", count_value(context_window)));
    update.push(member("percentage", count_value(pct as u64)));
    update.push(member("reason", text_value(reason)));
    let ghost u = update@;
    let update_value = object(update);
    let mut outer: Vec<(String, Json)> = Vec::new();
    outer.push(member("sessionId", text_value(session_id)));
    outer.push(member("update", update_value));
    let ghost o = outer@;
    let r = object(outer);
    proof {
        let expected = compaction_start_spec(session_id@, *event, tokens_used, context_window);
        assert(member_models(u) =~= expected->Object_0[1].1->Object_0);
        assert(member_models(o) =~= expected->Object_0);
    }
    r
}

/// A JSON value or `null`.
pub open spec fn or_null(v: Option<JsonModel>) -> JsonModel {
    match v {
        Some(x) => x,
        None => JsonModel::Null,
    }
}

/// The update that ends a compaction: failed (with a non-empty error),
/// cancelled (aborted), or completed — the last only with a result that
/// estimates the tokens after it.
pub open spec fn compaction_end_update(event: Json, elapsed_ms: Option<i64>) -> Option<JsonModel> {
    match first_str(event, seq!["errorMessage"@, "error"@]) {
        Some(e) if e.len() > 0 => Some(
            JsonModel::Object(
                seq![("sessionUpdate"@, JsonModel::Str("auto_compact_failed"@)), ("error"@, JsonModel::Str(e))],
            ),
        ),
        _ => if bool_of(field(event, "aborted"@)) == Some(true) {
            Some(
                JsonModel::Object(
                    seq![
                        ("sessionUpdate"@, JsonModel::Str("auto_compact_cancelled"@)),
                        (
                            "reason"@,
                            JsonModel::Str(
                                match first_str(event, seq!["reason"@]) {
                                    Some(r) => r,
                                    None => "Compaction cancelled"@,
                                },
                            ),
                        ),
                    ],
                ),
            )
        } else {
            match field(event, "result"@) {
                None => None,
                Some(result) => match u64_of(field(result, "estimatedTokensAfter"@)) {
                    None => None,
                    Some(after) => Some(
                        JsonModel::Object(
                            seq![
                                ("sessionUpdate"@, JsonModel::Str("auto_compact_completed"@)),
                                (
                                    "tokens_before"@,
                                    or_null(
                                        match u64_of(field(result, "tokensBefore"@)) {
                                            Some(b) => Some(count_model(b)),
                                            None => None,
                                        },
                                    ),
                                ),
                                ("tokens_after"@, count_model(after)),
                                (
                                    "elapsed_ms"@,
                                    or_null(
                                        match elapsed_ms {
                                            Some(ms) => Some(crate::todo_bridge::i64_number(ms)),
                                            None => None,
                                        },
                                    ),
                                ),
                                (
                                    "summary_preview"@,
                                    or_null(
                                        match str_of(field(result, "summary"@)) {
                                            Some(s) => Some(JsonModel::Str(s)),
                                            None => None,
                                        },
                                    ),
                                ),
                            ],
                        ),
                    ),
                },
            }
        },
    }
}

/// The session notification that ends a compaction (see
/// [`compaction_end_update`]).
pub fn compaction_end_notification(session_id: &str, event: &Json, elapsed_ms: Option<i64>) -> (r: Option<Json>)
    ensures
        crate::json::opt_model(r) == match compaction_end_update(*event, elapsed_ms) {
            Some(u) => Some(JsonModel::Object(seq![("sessionId"@, JsonModel::Str(session_id@)), ("update"@, u)])),
            None => None,
        },
{
    let mut update: Vec<(String, Json)> = Vec::new();
    let error = match str2(event, "errorMessage", "error") {
        Some(e) => if e.unicode_len() > 0 {
            Some(e)
        } else {
            None
        },
        None => None,
    };
    match error {
        Some(e) => {
            update.push(member("sessionUpdate", text_value("auto_compact_failed")));
            update.push(member("error", text_value(e)));
        },
        None => {
            if get_bool(event, "aborted") == Some(true) {
                let reason = match str1(event, "reason") {
                    Some(r) => r,
                    None => "Compaction cancelled",
                };
                update.push(member("sessionUpdate", text_value("auto_compact_cancelled")));
                update.push(member("reason", text_value(reason)));
            } else {
                let result = match event.get("result") {
                    Some(r) => r,
                    None => return None,
                };
                let after = match get_u64(result, "estimatedTokensAfter") {
                    Some(a) => a,
                    None => return None,
                };
                let before = match get_u64(result, "tokensBefore") {
                    Some(b) => count_value(b),
                    None => Json::Null,
                };
                let elapsed = match elapsed_ms {
                    Some(ms) => Json::Number(
                        JsonNumber {
                            as_u64: if ms >= 0 { Some(ms as u64) } else { None },
                            as_i64: Some(ms),
                            rounded: if ms >= 0 { Some(ms as u64) } else { None },
                            text: crate::text::i64_to_string(ms),
                        },
                    ),
                    None => Json::Null,
                };
                let summary = match get_str(result, "summary") {
                    Some(s) => text_value(s),
                    None => Json::Null,
                };
                update.push(member("sessionUpdate", text_value("auto_compact_completed")));
                update.push(member("tokens_before", before));
                update.push(member("tokens_after", count_value(after)));
                update.push(member("elapsed_ms", elapsed));
                update.push(member("summary_preview", summary));
            }
        },
    }
    let ghost u = update@;
    let update_value = object(update);
    let mut outer: Vec<(String, Json)> = Vec::new();
    outer.push(member("sessionId", text_value(session_id)));
    outer.push(member("update", update_value));
    let ghost o = outer@;
    let r = object(outer);
    proof {
        let expected = compaction_end_update(*event, elapsed_ms).unwrap();
        assert(member_models(u) =~= expected->Object_0);
        assert(member_models(o) =~= seq![("sessionId"@, JsonModel::Str(session_id@)), ("update"@, expected)]);
    }
    Some(r)
}


/// Pi's thinking levels map onto Grok's efforts by name, ASCII case
/// ignored: `off` and `none` to `none`, `minimal`, `low` and `high` to
/// themselves, `xhigh` and `max` to `xhigh`; every other level (`medium`
/// among them) to `medium`.
pub proof fn law_effort_names(level: Seq<char>)
    ensures
        crate::text::lower(level) == "off"@ ==> acp_effort_spec(level) == "none"@,
        crate::text::lower(level) == "none"@ ==> acp_effort_spec(level) == "none"@,
        crate::text::lower(level) == "minimal"@ ==> acp_effort_spec(level) == "minimal"@,
        crate::text::lower(level) == "low"@ ==> acp_effort_spec(level) == "low"@,
        crate::text::lower(level) == "high"@ ==> acp_effort_spec(level) == "high"@,
        crate::text::lower(level) == "xhigh"@ ==> acp_effort_spec(level) == "xhigh"@,
        crate::text::lower(level) == "max"@ ==> acp_effort_spec(level) == "xhigh"@,
        crate::text::lower(level) != "off"@ && crate::text::lower(level) != "none"@ && crate::text::lower(level)
            != "minimal"@ && crate::text::lower(level) != "low"@ && crate::text::lower(level) != "high"@
            && crate::text::lower(level) != "xhigh"@ && crate::text::lower(level) != "max"@ ==> acp_effort_spec(level)
            == "medium"@,
{
    reveal_strlit("off");
    reveal_strlit("none");
    reveal_strlit("minimal");
    reveal_strlit("low");
    reveal_strlit("high");
    reveal_strlit("xhigh");
    reveal_strlit("max");
    assert("off"@[1] == 'f' && "none"@[1] == 'o' && "low"@[0] == 'l' && "max"@[0] == 'm');
    assert("minimal"@.len() == 7 && "high"@.len() == 4 && "xhigh"@.len() == 5);
}

/// Every Pi request but `bash` and `compact` is given up after 300 seconds;
/// those two wait for the operation to finish.
pub proof fn law_request_deadlines(command_type: Seq<char>)
    ensures
        request_timeout_spec("bash"@) is None,
        request_timeout_spec("compact"@) is None,
        command_type != "bash"@ && command_type != "compact"@ ==> request_timeout_spec(command_type) == Some(300u64),
{
}

} // verus!
