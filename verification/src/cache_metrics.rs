//! Per-turn cache metrics of a Pi session, projected from its `get_entries`
//! payload: the assistant turns' token usage (estimated from content where
//! a provider wrote only zeros), totals over the whole tree and over the
//! active branch, the branch being the parent chain from the leaf entry.
use crate::context::{estimate_spec, estimate_tokens_text};
use crate::json::{
    or_empty, str_or_empty, str1, str2, str3, str4, u64_2,
    bool_of, field, first_str, get_str, i64_of, str_of, u64_of, opt_deref, opt_str_view, Json,
};
use crate::text::{
    all_digits, chars_of, digits_value, eq_ignore_ascii_case, eq_ignore_case, is_ascii_digit, lower,
    str_eq, to_ascii_lowercase, to_owned, trim, trim_str, decimal, u64_to_string,
};
use vstd::prelude::*;
use vstd::string::StringSliceAdditionalSpecFns;

verus! {

// ─── Tolerant number reading ─────────────────────────────────────────────────

/// `n` capped at `u64::MAX` (what saturating arithmetic gives).
pub open spec fn sat(n: int) -> u64 {
    if n > u64::MAX {
        u64::MAX
    } else if n < 0 {
        0
    } else {
        n as u64
    }
}

/// What `str::parse::<u64>` accepts: an optional `+`, then at least one
/// ASCII digit, with a value that fits in `u64`.
pub open spec fn parse_u64_spec(s: Seq<char>) -> Option<u64> {
    let body = if s.len() > 0 && s[0] == '+' { s.drop_first() } else { s };
    if body.len() > 0 && all_digits(body) && digits_value(body) <= u64::MAX {
        Some(digits_value(body) as u64)
    } else {
        None
    }
}

/// Index of the first `.` in `s` (its length when there is none).
pub open spec fn dot_index(s: Seq<char>) -> int
    decreases s.len(),
{
    if s.len() == 0 {
        0
    } else if s[0] == '.' {
        0
    } else {
        1 + dot_index(s.drop_first())
    }
}

/// A number in plain decimal notation (`[+-]digits[.digits]`, with digits on
/// at least one side of the point) read as a float and rounded to the
/// nearest integer, halves up: `None` for other text and for negative
/// values; capped at `u64::MAX`.
pub open spec fn decimal_round_spec(s: Seq<char>) -> Option<u64> {
    let neg = s.len() > 0 && s[0] == '-';
    let signed = s.len() > 0 && (s[0] == '-' || s[0] == '+');
    let body = if signed { s.drop_first() } else { s };
    let k = dot_index(body);
    let int_part = body.take(k);
    let frac = if k < body.len() { body.skip(k + 1) } else { Seq::empty() };
    if !(all_digits(int_part) && all_digits(frac) && int_part.len() + frac.len() > 0) {
        None
    } else if neg {
        if digits_value(int_part) == 0 && digits_value(frac) == 0 {
            Some(0)
        } else {
            None
        }
    } else {
        let up: int = if frac.len() > 0 && (frac[0] as u32) >= 53 { 1 } else { 0 };
        Some(sat(digits_value(int_part) + up))
    }
}

/// A number read from text: as `u64` when it is one, else as a rounded
/// non-negative decimal.
pub open spec fn text_number_spec(s: Seq<char>) -> Option<u64> {
    let t = trim(s);
    match parse_u64_spec(t) {
        Some(n) => Some(n),
        None => decimal_round_spec(t),
    }
}

/// A JSON value read as a count: integers as they are (negative ones as 0),
/// non-negative fractions rounded, numeric strings parsed.
pub open spec fn json_u64_spec(value: Option<Json>) -> Option<u64> {
    match value {
        Some(Json::Number(n)) => match n.as_u64 {
            Some(u) => Some(u),
            None => match n.as_i64 {
                Some(i) => Some(if i < 0 { 0u64 } else { i as u64 }),
                None => n.rounded,
            },
        },
        Some(Json::Str(s)) => text_number_spec(s@),
        _ => None,
    }
}

proof fn lemma_digits_nonneg(s: Seq<char>)
    requires
        all_digits(s),
    ensures
        digits_value(s) >= 0,
    decreases s.len(),
{
    if s.len() > 0 {
        assert(all_digits(s.drop_last()));
        lemma_digits_nonneg(s.drop_last());
    }
}

/// The digits of `v[lo..hi]`: whether all are ASCII digits, and their value
/// capped at `u64::MAX`.
fn digits_capped(v: &Vec<char>, lo: usize, hi: usize) -> (r: (bool, u64))
    requires
        lo <= hi <= v.len(),
    ensures
        r.0 == all_digits(v@.subrange(lo as int, hi as int)),
        r.0 ==> r.1 == sat(digits_value(v@.subrange(lo as int, hi as int))),
        r.0 ==> digits_value(v@.subrange(lo as int, hi as int)) >= 0,
{
    let mut acc: u64 = 0;
    let mut i: usize = lo;
    assert(v@.subrange(lo as int, lo as int) =~= Seq::<char>::empty());
    while i < hi
        invariant
            lo <= i <= hi <= v.len(),
            all_digits(v@.subrange(lo as int, i as int)),
            digits_value(v@.subrange(lo as int, i as int)) >= 0,
            acc == sat(digits_value(v@.subrange(lo as int, i as int))),
        decreases hi - i,
    {
        let c = v[i];
        let pre = Ghost(v@.subrange(lo as int, i + 1));
        assert(pre@.drop_last() =~= v@.subrange(lo as int, i as int));
        if !('0' <= c && c <= '9') {
            assert(v@.subrange(lo as int, hi as int)[i - lo] == c);
            return (false, 0);
        }
        let d = (c as u32 - 48) as u64;
        assert(digits_value(pre@) == digits_value(v@.subrange(lo as int, i as int)) * 10 + d);
        if acc > 1844674407370955161u64 || (acc == 1844674407370955161u64 && d > 5) {
            acc = u64::MAX;
        } else {
            acc = acc * 10 + d;
        }
        i = i + 1;
    }
    (true, acc)
}

fn dot_position(v: &Vec<char>, lo: usize) -> (k: usize)
    requires
        lo <= v.len(),
    ensures
        lo <= k <= v.len(),
        k - lo == dot_index(v@.skip(lo as int)),
{
    let mut i: usize = lo;
    assert(v@.skip(lo as int) =~= v@.skip(lo as int));
    while i < v.len()
        invariant
            lo <= i <= v.len(),
            dot_index(v@.skip(lo as int)) == (i - lo) + dot_index(v@.skip(i as int)),
        decreases v.len() - i,
    {
        if v[i] == '.' {
            return i;
        }
        assert(v@.skip(i as int).drop_first() =~= v@.skip(i + 1));
        i = i + 1;
    }
    i
}

/// The count that a numeric text stands for (see [`text_number_spec`]).
#[verifier::rlimit(40)]
#[verifier::spinoff_prover]
pub fn text_number(s: &str) -> (r: Option<u64>)
    ensures
        r == text_number_spec(s@),
{
    let t = trim_str(s);
    let v = chars_of(t.as_str());
    let n = v.len();
    // `str::parse::<u64>`.
    let plus: usize = if n > 0 && v[0] == '+' { 1 } else { 0 };
    assert(v@.subrange(plus as int, n as int) =~= (if v@.len() > 0 && v@[0] == '+' { v@.drop_first() } else { v@ }));
    let (all, value) = digits_capped(&v, plus, n);
    if plus < n && all && !(value == u64::MAX && !fits_u64(&v, plus)) {
        return Some(value);
    }
    assert(parse_u64_spec(v@) is None);
    // A plain decimal read as a float and rounded.
    let neg = n > 0 && v[0] == '-';
    let signed: usize = if n > 0 && (v[0] == '-' || v[0] == '+') { 1 } else { 0 };
    let ghost body = if n > 0 && (v@[0] == '-' || v@[0] == '+') { v@.drop_first() } else { v@ };
    assert(body =~= v@.skip(signed as int));
    let k = dot_position(&v, signed);
    assert(body.take(k - signed) =~= v@.subrange(signed as int, k as int));
    let (int_ok, int_value) = digits_capped(&v, signed, k);
    let frac_lo: usize = if k < n { k + 1 } else { n };
    if k < n {
        assert(body.skip(k - signed + 1) =~= v@.subrange(frac_lo as int, n as int));
    } else {
        assert(v@.subrange(frac_lo as int, n as int) =~= Seq::<char>::empty());
    }
    let (frac_ok, frac_value) = digits_capped(&v, frac_lo, n);
    if !(int_ok && frac_ok && (k - signed) + (n - frac_lo) > 0) {
        return None;
    }
    if neg {
        if int_value == 0 && frac_value == 0 {
            return Some(0);
        }
        return None;
    }
    let up: u64 = if frac_lo < n && (v[frac_lo] as u32) >= 53 { 1 } else { 0 };
    if frac_lo < n {
        assert(v@.subrange(frac_lo as int, n as int)[0] == v@[frac_lo as int]);
    }
    if int_value == u64::MAX {
        Some(u64::MAX)
    } else {
        Some(int_value + up)
    }
}

/// Whether the digits of `v[lo..]` (all ASCII digits) denote a value that
/// fits in `u64`.
fn fits_u64(v: &Vec<char>, lo: usize) -> (r: bool)
    requires
        lo <= v.len(),
        all_digits(v@.subrange(lo as int, v.len() as int)),
    ensures
        r == (digits_value(v@.subrange(lo as int, v.len() as int)) <= u64::MAX),
{
    let mut acc: u64 = 0;
    let mut i: usize = lo;
    assert(v@.subrange(lo as int, lo as int) =~= Seq::<char>::empty());
    while i < v.len()
        invariant
            lo <= i <= v.len(),
            all_digits(v@.subrange(lo as int, v.len() as int)),
            acc as int == digits_value(v@.subrange(lo as int, i as int)),
        decreases v.len() - i,
    {
        let c = v[i];
        let pre = Ghost(v@.subrange(lo as int, i + 1));
        assert(pre@.drop_last() =~= v@.subrange(lo as int, i as int));
        assert(v@.subrange(lo as int, v.len() as int)[i - lo] == c);
        let d = (c as u32 - 48) as u64;
        if acc > 1844674407370955161u64 || (acc == 1844674407370955161u64 && d > 5) {
            proof {
                lemma_suffix_digits_grow(v@, lo as int, i + 1);
            }
            return false;
        }
        acc = acc * 10 + d;
        i = i + 1;
    }
    true
}

/// Appending digits never lowers a digit string's value.
proof fn lemma_suffix_digits_grow(s: Seq<char>, lo: int, i: int)
    requires
        0 <= lo < i <= s.len(),
        all_digits(s.subrange(lo, s.len() as int)),
    ensures
        digits_value(s.subrange(lo, s.len() as int)) >= digits_value(s.subrange(lo, i)),
    decreases s.len() - i,
{
    if i < s.len() {
        lemma_suffix_digits_grow(s, lo, i + 1);
        let p = s.subrange(lo, i + 1);
        assert(p.drop_last() =~= s.subrange(lo, i));
        assert(all_digits(s.subrange(lo, i))) by {
            assert forall|j: int| 0 <= j < i - lo implies is_ascii_digit(#[trigger] s.subrange(lo, i)[j]) by {
                assert(s.subrange(lo, i)[j] == s.subrange(lo, s.len() as int)[j]);
            }
        }
        lemma_digits_nonneg(s.subrange(lo, i));
        assert(s.subrange(lo, s.len() as int)[i - lo] == s[i]);
    } else {
        assert(s.subrange(lo, i) =~= s.subrange(lo, s.len() as int));
    }
}

/// A JSON value read as a count (see [`json_u64_spec`]).
pub fn json_u64(value: Option<&Json>) -> (r: Option<u64>)
    ensures
        r == json_u64_spec(opt_deref(value)),
{
    match value {
        Some(Json::Number(n)) => match n.as_u64 {
            Some(u) => Some(u),
            None => match n.as_i64 {
                Some(i) => Some(if i < 0 { 0u64 } else { i as u64 }),
                None => n.rounded,
            },
        },
        Some(Json::Str(s)) => text_number(s.as_str()),
        _ => None,
    }
}

// ─── Content-based token estimates ───────────────────────────────────────────

/// Bytes of a string's UTF-8 encoding.
pub open spec fn utf8_len(s: Seq<char>) -> nat {
    vstd::utf8::encode_utf8(s).len()
}

/// Token estimate of a value the way the cache graph counts it: strings by
/// their length; arrays by the sum over their items; objects by their `text`
/// (else `thinking`) string when they have one, else by the sum over their
/// members; `null` as nothing; other values by the length of their JSON
/// text.
pub open spec fn value_tokens(v: Json) -> nat
    decreases v, 0nat,
{
    match v {
        Json::Null => 0,
        Json::Str(s) => estimate_spec(utf8_len(s@)),
        Json::Bool(b) => if b { estimate_spec(4) } else { estimate_spec(5) },
        Json::Number(n) => estimate_spec(utf8_len(n.text@)),
        Json::Array(items) => items_tokens(items@, items@.len() as int),
        Json::Object(members) => match str_of(field(v, "text"@)) {
            Some(t) => estimate_spec(utf8_len(t)),
            None => match str_of(field(v, "thinking"@)) {
                Some(t) => estimate_spec(utf8_len(t)),
                None => members_tokens(members@, members@.len() as int),
            },
        },
    }
}

/// Sum of the estimates of the first `n` items.
pub open spec fn items_tokens(items: Seq<Json>, n: int) -> nat
    decreases items, n,
{
    if n <= 0 || n > items.len() {
        0
    } else {
        items_tokens(items, n - 1) + value_tokens(items[n - 1])
    }
}

/// Sum of the estimates of the values of the first `n` members.
pub open spec fn members_tokens(members: Seq<(String, Json)>, n: int) -> nat
    decreases members, n,
{
    if n <= 0 || n > members.len() {
        0
    } else {
        members_tokens(members, n - 1) + value_tokens(members[n - 1].1)
    }
}

fn str_tokens(s: &str) -> (r: u64)
    ensures
        r == estimate_spec(utf8_len(s@)),
{
    estimate_tokens_text(s)
}

/// Token estimate of a value (see [`value_tokens`]), capped at `u64::MAX`.
pub fn estimate_tokens_value(v: &Json) -> (r: u64)
    ensures
        r == sat(value_tokens(*v) as int),
    decreases *v,
{
    match v {
        Json::Null => 0,
        Json::Str(s) => str_tokens(s.as_str()),
        // `true` and `false`: four and five bytes.
        Json::Bool(b) => if *b { 1 } else { 2 },
        Json::Number(n) => str_tokens(n.text.as_str()),
        Json::Array(items) => {
            let mut total: u64 = 0;
            let mut i: usize = 0;
            while i < items.len()
                invariant
                    i <= items.len(),
                    *v == Json::Array(*items),
                    total == sat(items_tokens(items@, i as int) as int),
                decreases items.len() - i,
            {
                proof {
                    assert(decreases_to!(*v => (*v)->Array_0));
                    assert(decreases_to!(*items => items@));
                    assert(decreases_to!(items@ => items@[i as int]));
                }
                let t = estimate_tokens_value(&items[i]);
                total = total.saturating_add(t);
                i = i + 1;
            }
            total
        },
        Json::Object(members) => {
            match get_str(v, "text") {
                Some(t) => return str_tokens(t),
                None => {},
            }
            match get_str(v, "thinking") {
                Some(t) => return str_tokens(t),
                None => {},
            }
            let mut total: u64 = 0;
            let mut i: usize = 0;
            while i < members.len()
                invariant
                    i <= members.len(),
                    *v == Json::Object(*members),
                    total == sat(members_tokens(members@, i as int) as int),
                decreases members.len() - i,
            {
                proof {
                    assert(decreases_to!(*v => (*v)->Object_0));
                    assert(decreases_to!(*members => members@));
                    assert(decreases_to!(members@ => members@[i as int]));
                    assert(decreases_to!(members@[i as int] => members@[i as int].1));
                }
                let t = estimate_tokens_value(&members[i].1);
                total = total.saturating_add(t);
                i = i + 1;
            }
            total
        },
    }
}

// ─── Usage of an assistant turn ──────────────────────────────────────────────

/// The first of `names` that reads as a count in `usage` (0 when none does).
pub open spec fn usage_field_spec(usage: Json, names: Seq<Seq<char>>) -> u64
    decreases names.len(),
{
    if names.len() == 0 {
        0
    } else {
        match json_u64_spec(field(usage, names[0])) {
            Some(n) => n,
            None => usage_field_spec(usage, names.drop_first()),
        }
    }
}

pub open spec fn input_names() -> Seq<Seq<char>> {
    seq!["input"@, "prompt_tokens"@, "promptTokens"@]
}

pub open spec fn output_names() -> Seq<Seq<char>> {
    seq!["output"@, "completion_tokens"@, "completionTokens"@]
}

pub open spec fn cache_read_names() -> Seq<Seq<char>> {
    seq!["cacheRead"@, "cache_read"@, "cached_tokens"@, "cachedTokens"@]
}

pub open spec fn cache_write_names() -> Seq<Seq<char>> {
    seq!["cacheWrite"@, "cache_write"@]
}

pub open spec fn total_names() -> Seq<Seq<char>> {
    seq!["totalTokens"@, "total_tokens"@]
}

/// A turn's token counts: input, output, cache read, cache write, total.
pub struct UsageCounts {
    pub input: u64,
    pub output: u64,
    pub cache_read: u64,
    pub cache_write: u64,
    pub total_tokens: u64,
}

/// The counts that a message's `usage` object reports (all zero without
/// one); the total is at least the sum of the four parts.
pub open spec fn reported_usage(message: Json) -> (u64, u64, u64, u64, u64) {
    match field(message, "usage"@) {
        Some(u) => if u is Object {
            let i = usage_field_spec(u, input_names());
            let o = usage_field_spec(u, output_names());
            let r = usage_field_spec(u, cache_read_names());
            let w = usage_field_spec(u, cache_write_names());
            let t = usage_field_spec(u, total_names());
            let parts = sat(i + o + r + w);
            (i, o, r, w, if t >= parts { t } else { parts })
        } else {
            (0, 0, 0, 0, 0)
        },
        None => (0, 0, 0, 0, 0),
    }
}

fn count2(u: &Json, a: &str, b: &str) -> (r: u64)
    ensures
        r == usage_field_spec(*u, seq![a@, b@]),
{
    reveal_with_fuel(usage_field_spec, 3);
    assert(seq![a@, b@].drop_first() =~= seq![b@]);
    assert(seq![b@].drop_first() =~= Seq::<Seq<char>>::empty());
    match json_u64(u.get(a)) {
        Some(n) => n,
        None => match json_u64(u.get(b)) {
            Some(n) => n,
            None => 0,
        },
    }
}

fn count3(u: &Json, a: &str, b: &str, c: &str) -> (r: u64)
    ensures
        r == usage_field_spec(*u, seq![a@, b@, c@]),
{
    assert(seq![a@, b@, c@].drop_first() =~= seq![b@, c@]);
    match json_u64(u.get(a)) {
        Some(n) => n,
        None => count2(u, b, c),
    }
}

fn count4(u: &Json, a: &str, b: &str, c: &str, d: &str) -> (r: u64)
    ensures
        r == usage_field_spec(*u, seq![a@, b@, c@, d@]),
{
    assert(seq![a@, b@, c@, d@].drop_first() =~= seq![b@, c@, d@]);
    match json_u64(u.get(a)) {
        Some(n) => n,
        None => count3(u, b, c, d),
    }
}

/// The counts that `message.usage` reports (see [`reported_usage`]).
fn extract_usage(message: &Json) -> (r: UsageCounts)
    ensures
        (r.input, r.output, r.cache_read, r.cache_write, r.total_tokens) == reported_usage(*message),
{
    let zero = UsageCounts { input: 0, output: 0, cache_read: 0, cache_write: 0, total_tokens: 0 };
    let u = match message.get("usage") {
        Some(u) => u,
        None => return zero,
    };
    match u {
        Json::Object(_) => {},
        _ => return zero,
    }
    let input = count3(u, "input", "prompt_tokens", "promptTokens");
    let output = count3(u, "output", "completion_tokens", "completionTokens");
    let cache_read = count4(u, "cacheRead", "cache_read", "cached_tokens", "cachedTokens");
    let cache_write = count2(u, "cacheWrite", "cache_write");
    let total = count2(u, "totalTokens", "total_tokens");
    let parts = input.saturating_add(output).saturating_add(cache_read).saturating_add(cache_write);
    UsageCounts {
        input,
        output,
        cache_read,
        cache_write,
        total_tokens: if total >= parts { total } else { parts },
    }
}

/// A value's estimate, when the value is there.
pub open spec fn opt_tokens(v: Option<Json>) -> nat {
    match v {
        Some(x) => value_tokens(x),
        None => 0,
    }
}

/// Output tokens estimated from an assistant message's `content` and
/// `thinking`.
pub open spec fn estimated_output(message: Json) -> u64 {
    sat((opt_tokens(field(message, "content"@)) + opt_tokens(field(message, "thinking"@))) as int)
}

/// Whether a content part is a tool call (`type`, else `kind`, equal to
/// `toolCall` or `tool_call` ignoring ASCII case).
pub open spec fn is_tool_call_part(part: Json) -> bool {
    let kind = match first_str(part, seq!["type"@, "kind"@]) {
        Some(k) => k,
        None => Seq::empty(),
    };
    eq_ignore_case(kind, "toolCall"@) || eq_ignore_case(kind, "tool_call"@)
}

/// Number of tool-call parts among the first `n` parts.
pub open spec fn tool_call_count(parts: Seq<Json>, n: int) -> nat
    decreases n,
{
    if n <= 0 || n > parts.len() {
        0
    } else {
        tool_call_count(parts, n - 1) + if is_tool_call_part(parts[n - 1]) { 1nat } else { 0nat }
    }
}

/// Number of tool-call parts of a message's `content` array.
pub open spec fn message_tool_calls(message: Json) -> nat {
    match field(message, "content"@) {
        Some(Json::Array(parts)) => tool_call_count(parts@, parts@.len() as int),
        _ => 0,
    }
}

/// Stand-in for the prompt size of a turn whose provider reported no usage:
/// `max(4 * output, output + 256)`, plus 128 per tool call.
pub open spec fn prompt_proxy(message: Json, output: u64) -> u64 {
    let a = sat(output * 4);
    let b = sat(output + 256);
    let base = if a >= b { a } else { b };
    let calls = message_tool_calls(message);
    if calls > 0 {
        sat(base + sat((calls * 128) as int))
    } else {
        base
    }
}

/// The usage of an assistant turn with the flag "estimated": the reported
/// counts, or, when all of them are zero, the content-based estimates;
/// `None` when nothing is left to show.
pub open spec fn turn_usage(message: Json) -> Option<(u64, u64, u64, u64, u64, bool)> {
    let (i, o, r, w, t) = reported_usage(message);
    if i == 0 && o == 0 && r == 0 && w == 0 && t == 0 {
        let eo = estimated_output(message);
        let ei = prompt_proxy(message, eo);
        if eo > 0 || ei > 0 {
            Some((ei, eo, 0u64, 0u64, sat(ei + eo), true))
        } else {
            None
        }
    } else {
        Some((i, o, r, w, t, false))
    }
}

fn opt_tokens_exec(v: Option<&Json>) -> (r: u64)
    ensures
        r == sat(opt_tokens(opt_deref(v)) as int),
{
    match v {
        Some(x) => estimate_tokens_value(x),
        None => 0,
    }
}

fn estimate_assistant_output_tokens(message: &Json) -> (r: u64)
    ensures
        r == estimated_output(*message),
{
    let a = opt_tokens_exec(message.get("content"));
    let b = opt_tokens_exec(message.get("thinking"));
    a.saturating_add(b)
}

fn count_tool_calls(parts: &Vec<Json>) -> (r: u64)
    ensures
        r == sat(tool_call_count(parts@, parts@.len() as int) as int),
{
    let mut n: u64 = 0;
    let mut i: usize = 0;
    while i < parts.len()
        invariant
            i <= parts.len(),
            n == tool_call_count(parts@, i as int),
            n <= i,
        decreases parts.len() - i,
    {
        let kind = match str2(&parts[i], "type", "kind") {
            Some(k) => k,
            None => "",
        };
        proof {
            reveal_strlit("");
        }
        let hit = eq_ignore_ascii_case(kind, "toolCall") || eq_ignore_ascii_case(kind, "tool_call");
        assert(kind@ == match first_str(parts@[i as int], seq!["type"@, "kind"@]) { Some(k) => k, None => Seq::<char>::empty() });
        assert(hit == is_tool_call_part(parts@[i as int]));
        assert(tool_call_count(parts@, i + 1) == tool_call_count(parts@, i as int) + if hit { 1nat } else { 0nat });
        if hit {
            n = n + 1;
        }
        i = i + 1;
    }
    n
}

fn estimate_prompt_proxy_tokens(message: &Json, output_tokens: u64) -> (r: u64)
    ensures
        r == prompt_proxy(*message, output_tokens),
{
    let calls: u64 = match message.get("content") {
        Some(Json::Array(parts)) => count_tool_calls(parts),
        _ => 0,
    };
    let a = if output_tokens > u64::MAX / 4 { u64::MAX } else { output_tokens * 4 };
    let b = output_tokens.saturating_add(256);
    let base = if a >= b { a } else { b };
    if calls > 0 {
        let extra = if calls > u64::MAX / 128 { u64::MAX } else { calls * 128 };
        base.saturating_add(extra)
    } else {
        base
    }
}

/// The usage of an assistant turn (see [`turn_usage`]).
fn assistant_turn_usage(message: &Json) -> (r: Option<(UsageCounts, bool)>)
    ensures
        match r {
            Some((u, est)) => turn_usage(*message) == Some(
                (u.input, u.output, u.cache_read, u.cache_write, u.total_tokens, est),
            ),
            None => turn_usage(*message) is None,
        },
{
    let u = extract_usage(message);
    if u.input == 0 && u.output == 0 && u.cache_read == 0 && u.cache_write == 0 && u.total_tokens == 0 {
        let est_out = estimate_assistant_output_tokens(message);
        let est_in = estimate_prompt_proxy_tokens(message, est_out);
        if est_out > 0 || est_in > 0 {
            return Some((
                UsageCounts {
                    input: est_in,
                    output: est_out,
                    cache_read: 0,
                    cache_write: 0,
                    total_tokens: est_in.saturating_add(est_out),
                },
                true,
            ));
        }
        return None;
    }
    Some((u, false))
}

// ─── Entries of the session tree ─────────────────────────────────────────────

/// The message of an entry: its `message` member, else the entry itself.
pub open spec fn entry_message(entry: Json) -> Json {
    match field(entry, "message"@) {
        Some(m) => m,
        None => entry,
    }
}

/// Whether an entry is a message entry (`type`, else `kind`, equal to
/// `message` ignoring ASCII case) holding an assistant message.
pub open spec fn is_assistant_entry(entry: Json) -> bool {
    &&& lower(or_empty(first_str(entry, seq!["type"@, "kind"@]))) == "message"@
    &&& first_str(entry_message(entry), seq!["role"@]) == Some("assistant"@)
}

/// The id of an entry: its own `id`, else its message's.
pub open spec fn entry_id_spec(entry: Json) -> Seq<char> {
    match first_str(entry, seq!["id"@]) {
        Some(id) => id,
        None => or_empty(first_str(entry_message(entry), seq!["id"@])),
    }
}

/// The timestamp of an entry: its own `timestamp` string, else its
/// message's, else the message's numeric `timestamp` in decimal.
pub open spec fn entry_timestamp(entry: Json) -> Seq<char> {
    let m = entry_message(entry);
    match first_str(entry, seq!["timestamp"@]) {
        Some(t) => t,
        None => match first_str(m, seq!["timestamp"@]) {
            Some(t) => t,
            None => match u64_of(field(m, "timestamp"@)) {
                Some(n) => decimal(n as nat),
                None => match i64_of(field(m, "timestamp"@)) {
                    Some(i) => decimal((i as u64) as nat),
                    None => Seq::empty(),
                },
            },
        },
    }
}

/// The parent recorded by the last entry whose id is `id` (`None` when no
/// entry has that id).
pub open spec fn parent_of(items: Seq<Json>, id: Seq<char>) -> Option<Option<Seq<char>>>
    decreases items.len(),
{
    if items.len() == 0 {
        None
    } else if first_str(items.last(), seq!["id"@]) == Some(id) {
        Some(first_str(items.last(), seq!["parentId"@, "parent_id"@]))
    } else {
        parent_of(items.drop_last(), id)
    }
}

/// The `k`-th ancestor of `leaf` along recorded parents (`leaf` itself for
/// 0), while there is one.
pub open spec fn ancestor(items: Seq<Json>, leaf: Seq<char>, k: nat) -> Option<Seq<char>>
    decreases k,
{
    if k == 0 {
        Some(leaf)
    } else {
        match ancestor(items, leaf, (k - 1) as nat) {
            Some(c) => match parent_of(items, c) {
                Some(Some(p)) => Some(p),
                _ => None,
            },
            None => None,
        }
    }
}

/// Whether some entry has the id `id`.
pub open spec fn has_id(items: Seq<Json>, id: Seq<char>) -> bool {
    exists|i: int| 0 <= i < items.len() && first_str(#[trigger] items[i], seq!["id"@]) == Some(id)
}

/// Whether some entry has an id.
pub open spec fn any_id(items: Seq<Json>) -> bool {
    exists|i: int| 0 <= i < items.len() && first_str(#[trigger] items[i], seq!["id"@]) is Some
}

/// Whether the entry id `id` is on the active branch: an ancestor of the
/// leaf; without a leaf every entry with an id is, and when no entry has an
/// id every turn counts as on the branch.
pub open spec fn on_branch(items: Seq<Json>, leaf: Option<Seq<char>>, id: Seq<char>) -> bool {
    match leaf {
        Some(l) => exists|k: nat| ancestor(items, l, k) == Some(id),
        None => !any_id(items) || has_id(items, id),
    }
}

/// The parent text of every entry (empty where an entry records none).
pub open spec fn parent_texts(items: Seq<Json>) -> Seq<Seq<char>> {
    items.map_values(|e: Json| or_empty(first_str(e, seq!["parentId"@, "parent_id"@])))
}

proof fn lemma_parent_recorded(items: Seq<Json>, id: Seq<char>)
    ensures
        parent_of(items, id) matches Some(Some(p)) ==> parent_texts(items).contains(p),
    decreases items.len(),
{
    if items.len() > 0 {
        if first_str(items.last(), seq!["id"@]) == Some(id) {
            if let Some(Some(p)) = parent_of(items, id) {
                assert(parent_texts(items)[items.len() - 1] == p);
            }
        } else {
            lemma_parent_recorded(items.drop_last(), id);
            if let Some(Some(p)) = parent_of(items, id) {
                let j = choose|j: int| 0 <= j < parent_texts(items.drop_last()).len() && parent_texts(items.drop_last())[j] == p;
                assert(parent_texts(items)[j] == p);
            }
        }
    }
}

proof fn lemma_ancestor_ends(items: Seq<Json>, leaf: Seq<char>, k: nat, m: nat)
    requires
        ancestor(items, leaf, k) is None,
    ensures
        ancestor(items, leaf, k + m) is None,
    decreases m,
{
    if m > 0 {
        lemma_ancestor_ends(items, leaf, k, (m - 1) as nat);
        assert(ancestor(items, leaf, k + m) == match ancestor(items, leaf, (k + m - 1) as nat) {
            Some(c) => match parent_of(items, c) {
                Some(Some(p)) => Some(p),
                _ => None,
            },
            None => None,
        });
    }
}

proof fn lemma_ancestor_shift(items: Seq<Json>, leaf: Seq<char>, a: nat, b: nat, m: nat)
    requires
        ancestor(items, leaf, a) == ancestor(items, leaf, b),
    ensures
        ancestor(items, leaf, a + m) == ancestor(items, leaf, b + m),
    decreases m,
{
    if m > 0 {
        lemma_ancestor_shift(items, leaf, a, b, (m - 1) as nat);
        assert(ancestor(items, leaf, a + m) == match ancestor(items, leaf, (a + m - 1) as nat) {
            Some(c) => match parent_of(items, c) {
                Some(Some(p)) => Some(p),
                _ => None,
            },
            None => None,
        });
        assert(ancestor(items, leaf, b + m) == match ancestor(items, leaf, (b + m - 1) as nat) {
            Some(c) => match parent_of(items, c) {
                Some(Some(p)) => Some(p),
                _ => None,
            },
            None => None,
        });
    }
}

/// Once the chain comes back to an earlier ancestor, every later ancestor
/// is one of the first `len`.
proof fn lemma_cycle_closed(items: Seq<Json>, leaf: Seq<char>, len: nat, i: nat, k: nat)
    requires
        i < len,
        ancestor(items, leaf, len) == ancestor(items, leaf, i),
    ensures
        exists|j: nat| j < len && ancestor(items, leaf, k) == ancestor(items, leaf, j),
    decreases k,
{
    if k < len {
        assert(ancestor(items, leaf, k) == ancestor(items, leaf, k));
    } else {
        let m = (k - len) as nat;
        lemma_ancestor_shift(items, leaf, len, i, m);
        lemma_cycle_closed(items, leaf, len, i, (i + m) as nat);
    }
}

/// The views of a list of strings.
pub open spec fn views(v: Seq<String>) -> Seq<Seq<char>> {
    v.map_values(|s: String| s@)
}

fn contains_str(v: &Vec<String>, s: &str) -> (r: bool)
    ensures
        r == views(v@).contains(s@),
{
    let mut i: usize = 0;
    while i < v.len()
        invariant
            i <= v.len(),
            forall|j: int| 0 <= j < i ==> v@[j]@ != s@,
        decreases v.len() - i,
    {
        if str_eq(v[i].as_str(), s) {
            assert(views(v@)[i as int] == s@);
            return true;
        }
        i = i + 1;
    }
    assert(!views(v@).contains(s@)) by {
        if views(v@).contains(s@) {
            let j = choose|j: int| 0 <= j < views(v@).len() && views(v@)[j] == s@;
            assert(v@[j]@ == s@);
        }
    }
    false
}

/// The parent recorded by the last entry with id `id` (see [`parent_of`]).
fn parent_lookup(items: &Vec<Json>, id: &str) -> (r: Option<Option<String>>)
    ensures
        parent_of(items@, id@) == match r {
            Some(Some(p)) => Some(Some(p@)),
            Some(None) => Some(None::<Seq<char>>),
            None => None::<Option<Seq<char>>>,
        },
{
    let mut i: usize = items.len();
    assert(items@.take(i as int) =~= items@);
    while i > 0
        invariant
            i <= items.len(),
            parent_of(items@, id@) == parent_of(items@.take(i as int), id@),
        decreases i,
    {
        i = i - 1;
        assert(items@.take(i + 1).last() == items@[i as int]);
        assert(items@.take(i + 1).drop_last() =~= items@.take(i as int));
        let found = match str1(&items[i], "id") {
            Some(x) => str_eq(x, id),
            None => false,
        };
        if found {
            return Some(match str2(&items[i], "parentId", "parent_id") {
                Some(p) => Some(to_owned(p)),
                None => None,
            });
        }
    }
    None
}

/// The active branch of a session tree: every turn, or the turns whose
/// entry ids are listed.
pub enum ActiveBranch {
    Everything,
    Ids(Vec<String>),
}

/// Whether `id` is on `b`.
pub open spec fn branch_has(b: ActiveBranch, id: Seq<char>) -> bool {
    match b {
        ActiveBranch::Everything => true,
        ActiveBranch::Ids(v) => views(v@).contains(id),
    }
}

/// The ids of the parent chain from `leaf` to the root.
fn ancestor_chain(items: &Vec<Json>, leaf: &str) -> (r: Vec<String>)
    ensures
        forall|id: Seq<char>| views(r@).contains(id) <==> exists|k: nat| ancestor(items@, leaf@, k) == Some(id),
{
    let mut chain: Vec<String> = Vec::new();
    let mut current: String = to_owned(leaf);
    assert(ancestor(items@, leaf@, 0) == Some(leaf@));
    loop
        invariant_except_break
            forall|j: int| 0 <= j < chain@.len() ==> ancestor(items@, leaf@, j as nat) == Some(#[trigger] chain@[j]@),
            ancestor(items@, leaf@, chain@.len()) == Some(current@),
            views(chain@).no_duplicates(),
            forall|j: int| 1 <= j < chain@.len() ==> parent_texts(items@).contains(#[trigger] chain@[j]@),
            chain@.len() >= 1 ==> parent_texts(items@).contains(current@),
            chain@.len() <= items@.len() + 1,
        ensures
            forall|id: Seq<char>| views(chain@).contains(id) <==> exists|k: nat| ancestor(items@, leaf@, k) == Some(id),
        decreases items@.len() + 1 - chain@.len(),
    {
        let len = Ghost(chain@.len());
        if contains_str(&chain, current.as_str()) {
            proof {
                let i = choose|i: int| 0 <= i < views(chain@).len() && views(chain@)[i] == current@;
                assert(ancestor(items@, leaf@, i as nat) == Some(chain@[i]@));
                assert forall|id: Seq<char>| views(chain@).contains(id) <==> exists|k: nat| ancestor(items@, leaf@, k) == Some(id) by {
                    if views(chain@).contains(id) {
                        let j = choose|j: int| 0 <= j < views(chain@).len() && views(chain@)[j] == id;
                        assert(ancestor(items@, leaf@, j as nat) == Some(chain@[j]@));
                    }
                    if exists|k: nat| ancestor(items@, leaf@, k) == Some(id) {
                        let k = choose|k: nat| ancestor(items@, leaf@, k) == Some(id);
                        lemma_cycle_closed(items@, leaf@, len@, i as nat, k);
                        let j = choose|j: nat| j < len@ && ancestor(items@, leaf@, k) == ancestor(items@, leaf@, j);
                        assert(views(chain@)[j as int] == id);
                    }
                }
            }
            break;
        }
        proof {
            let next = views(chain@).push(current@);
            assert(next.no_duplicates()) by {
                assert forall|a: int, b: int| 0 <= a < b < next.len() implies next[a] != next[b] by {
                    if b == next.len() - 1 {
                        assert(views(chain@)[a] == next[a]);
                    } else {
                        assert(views(chain@)[a] == next[a] && views(chain@)[b] == next[b]);
                    }
                }
            }
            if chain@.len() >= 1 {
                let rest = next.drop_first();
                assert(rest.no_duplicates()) by {
                    assert forall|a: int, b: int| 0 <= a < b < rest.len() implies rest[a] != rest[b] by {
                        assert(rest[a] == next[a + 1] && rest[b] == next[b + 1]);
                    }
                }
                assert forall|j: int| 0 <= j < rest.len() implies parent_texts(items@).contains(#[trigger] rest[j]) by {
                    if j + 1 < chain@.len() {
                        assert(rest[j] == chain@[j + 1]@);
                    } else {
                        assert(rest[j] == current@);
                    }
                }
                lemma_pigeonhole_seq(rest, parent_texts(items@));
            }
        }
        let ghost before = chain@;
        chain.push(current.clone());
        assert(chain@[before.len() as int]@ == current@);
        assert(views(chain@) =~= views(before).push(current@));
        match parent_lookup(items, current.as_str()) {
            Some(Some(p)) => {
                proof {
                    lemma_parent_recorded(items@, current@);
                    assert(ancestor(items@, leaf@, chain@.len()) == Some(p@));
                }
                current = p;
            },
            _ => {
                proof {
                    assert(ancestor(items@, leaf@, chain@.len()) is None);
                    assert forall|id: Seq<char>| views(chain@).contains(id) <==> exists|k: nat| ancestor(items@, leaf@, k) == Some(id) by {
                        if views(chain@).contains(id) {
                            let j = choose|j: int| 0 <= j < views(chain@).len() && views(chain@)[j] == id;
                            assert(ancestor(items@, leaf@, j as nat) == Some(chain@[j]@));
                        }
                        if exists|k: nat| ancestor(items@, leaf@, k) == Some(id) {
                            let k = choose|k: nat| ancestor(items@, leaf@, k) == Some(id);
                            if k >= chain@.len() {
                                lemma_ancestor_ends(items@, leaf@, chain@.len(), (k - chain@.len()) as nat);
                            }
                            assert(views(chain@)[k as int] == id);
                        }
                    }
                }
                break;
            },
        }
    }
    chain
}

proof fn lemma_pigeonhole_seq(seen: Seq<Seq<char>>, names: Seq<Seq<char>>)
    requires
        seen.no_duplicates(),
        forall|i: int| 0 <= i < seen.len() ==> names.contains(#[trigger] seen[i]),
    ensures
        seen.len() <= names.len(),
{
    broadcast use vstd::seq_lib::seq_to_set_is_finite;
    seen.unique_seq_to_set();
    names.lemma_cardinality_of_set();
    assert(seen.to_set().subset_of(names.to_set())) by {
        assert forall|x: Seq<char>| seen.to_set().contains(x) implies names.to_set().contains(x) by {
            let i = choose|i: int| 0 <= i < seen.len() && seen[i] == x;
            assert(names.contains(seen[i]));
        }
    }
    vstd::set_lib::lemma_len_subset(seen.to_set(), names.to_set());
}

/// The active branch of `items` for the leaf `leaf` (see [`on_branch`]).
fn active_branch(items: &Vec<Json>, leaf: Option<&str>) -> (b: ActiveBranch)
    ensures
        forall|id: Seq<char>| branch_has(b, id) == on_branch(items@, opt_str_view(leaf), id),
{
    match leaf {
        Some(l) => ActiveBranch::Ids(ancestor_chain(items, l)),
        None => {
            let mut ids: Vec<String> = Vec::new();
            let mut i: usize = 0;
            while i < items.len()
                invariant
                    i <= items.len(),
                    forall|id: Seq<char>| views(ids@).contains(id) <==> exists|j: int| 0 <= j < i && first_str(#[trigger] items@[j], seq!["id"@]) == Some(id),
                decreases items.len() - i,
            {
                let ghost before = ids@;
                match str1(&items[i], "id") {
                    Some(x) => {
                        ids.push(to_owned(x));
                        assert(views(ids@) =~= views(before).push(x@));
                        assert forall|id: Seq<char>| views(ids@).contains(id) <==> exists|j: int| 0 <= j < i + 1 && first_str(#[trigger] items@[j], seq!["id"@]) == Some(id) by {
                            if views(ids@).contains(id) {
                                if id != x@ {
                                    let k = choose|k: int| 0 <= k < views(ids@).len() && views(ids@)[k] == id;
                                    assert(views(before)[k] == id);
                                    assert(views(before).contains(id));
                                    let j = choose|j: int| 0 <= j < i && first_str(#[trigger] items@[j], seq!["id"@]) == Some(id);
                                    assert(0 <= j < i + 1);
                                } else {
                                    assert(first_str(items@[i as int], seq!["id"@]) == Some(id));
                                }
                            }
                            if exists|j: int| 0 <= j < i + 1 && first_str(#[trigger] items@[j], seq!["id"@]) == Some(id) {
                                if id != x@ {
                                    let j = choose|j: int| 0 <= j < i + 1 && first_str(#[trigger] items@[j], seq!["id"@]) == Some(id);
                                    assert(j < i);
                                    assert(views(before).contains(id));
                                    let k = choose|k: int| 0 <= k < views(before).len() && views(before)[k] == id;
                                    assert(views(ids@)[k] == id);
                                } else {
                                    assert(views(ids@)[before.len() as int] == id);
                                }
                            }
                        }
                    },
                    None => {},
                }
                i = i + 1;
            }
            if ids.len() == 0 {
                assert(!any_id(items@)) by {
                    if any_id(items@) {
                        let j = choose|j: int| 0 <= j < items@.len() && first_str(#[trigger] items@[j], seq!["id"@]) is Some;
                        let id = first_str(items@[j], seq!["id"@]).unwrap();
                        assert(views(ids@).contains(id));
                    }
                }
                ActiveBranch::Everything
            } else {
                assert(any_id(items@)) by {
                    assert(views(ids@).contains(views(ids@)[0]));
                }
                ActiveBranch::Ids(ids)
            }
        },
    }
}

fn branch_contains(b: &ActiveBranch, id: &str) -> (r: bool)
    ensures
        r == branch_has(*b, id@),
{
    match b {
        ActiveBranch::Everything => true,
        ActiveBranch::Ids(v) => contains_str(v, id),
    }
}

// ─── Session metrics ─────────────────────────────────────────────────────────

/// One assistant turn of the cache graph.
#[derive(Debug, Clone)]
pub struct CacheMessageMetric {
    /// 1-based position among the turns shown.
    pub sequence: u32,
    pub entry_id: String,
    pub timestamp: String,
    pub provider: String,
    pub model: String,
    pub input: u64,
    pub output: u64,
    pub cache_read: u64,
    pub cache_write: u64,
    pub total_tokens: u64,
    pub is_on_active_branch: bool,
    /// Whether the counts were estimated from content.
    pub usage_estimated: bool,
    /// 1-based position among the active branch's turns.
    pub active_branch_sequence: Option<u32>,
    /// The turn's cache hit rate as `(cache reads, everything read)`;
    /// `None` when nothing was read (shown as 0 %).
    pub cache_hit: Option<(u64, u64)>,
}

/// Token sums over a set of turns, and the number of turns.
#[derive(Debug, Clone, Copy, PartialEq, Eq, Structural)]
pub struct CacheTotals {
    pub input: u64,
    pub output: u64,
    pub cache_read: u64,
    pub cache_write: u64,
    pub total_tokens: u64,
    pub assistant_messages: u64,
}

/// The cache graph of a session.
#[derive(Debug, Clone)]
pub struct CacheSessionMetrics {
    pub all_messages: Vec<CacheMessageMetric>,
    pub active_branch_messages: Vec<CacheMessageMetric>,
    pub tree_totals: CacheTotals,
    pub active_branch_totals: CacheTotals,
    /// Turns whose counts were estimated.
    pub estimated_count: u32,
}

/// A turn of the graph as values.
pub struct MetricView {
    pub sequence: u32,
    pub entry_id: Seq<char>,
    pub timestamp: Seq<char>,
    pub provider: Seq<char>,
    pub model: Seq<char>,
    pub usage: (u64, u64, u64, u64, u64),
    pub on_branch: bool,
    pub estimated: bool,
    pub branch_sequence: Option<u32>,
    pub cache_hit: Option<(u64, u64)>,
}

pub open spec fn metric_view(m: CacheMessageMetric) -> MetricView {
    MetricView {
        sequence: m.sequence,
        entry_id: m.entry_id@,
        timestamp: m.timestamp@,
        provider: m.provider@,
        model: m.model@,
        usage: (m.input, m.output, m.cache_read, m.cache_write, m.total_tokens),
        on_branch: m.is_on_active_branch,
        estimated: m.usage_estimated,
        branch_sequence: m.active_branch_sequence,
        cache_hit: m.cache_hit,
    }
}

pub open spec fn metric_views(v: Seq<CacheMessageMetric>) -> Seq<MetricView> {
    v.map_values(|m: CacheMessageMetric| metric_view(m))
}

/// `n` capped at `u32::MAX`.
pub open spec fn sat32(n: int) -> u32 {
    if n > u32::MAX {
        u32::MAX
    } else {
        n as u32
    }
}

/// The graph after some of the entries.
pub struct MetricsModel {
    pub all: Seq<MetricView>,
    pub branch: Seq<MetricView>,
    pub tree: CacheTotals,
    pub branch_totals: CacheTotals,
    pub sequence: u32,
    pub branch_sequence: u32,
    pub estimated: u32,
}

pub open spec fn zero_totals() -> CacheTotals {
    CacheTotals { input: 0, output: 0, cache_read: 0, cache_write: 0, total_tokens: 0, assistant_messages: 0 }
}

/// `t` with one more turn of usage `u` (saturating).
pub open spec fn add_totals(t: CacheTotals, u: (u64, u64, u64, u64, u64)) -> CacheTotals {
    CacheTotals {
        input: sat(t.input + u.0),
        output: sat(t.output + u.1),
        cache_read: sat(t.cache_read + u.2),
        cache_write: sat(t.cache_write + u.3),
        total_tokens: sat(t.total_tokens + u.4),
        assistant_messages: sat(t.assistant_messages + 1),
    }
}

/// The graph after one more entry: an assistant turn with something to show
/// is numbered, added to the tree totals and, when on the active branch, to
/// the branch's turns and totals.
pub open spec fn metrics_step(s: MetricsModel, items: Seq<Json>, leaf: Option<Seq<char>>, entry: Json) -> MetricsModel {
    let m = entry_message(entry);
    if !is_assistant_entry(entry) {
        s
    } else {
        match turn_usage(m) {
            None => s,
            Some((i, o, r, w, t, est)) => {
                let sequence = sat32(s.sequence + 1);
                let estimated = if est { sat32(s.estimated + 1) } else { s.estimated };
                let id = entry_id_spec(entry);
                let on = on_branch(items, leaf, id);
                let u = (i, o, r, w, t);
                let tree = add_totals(s.tree, u);
                let branch_sequence = if on { sat32(s.branch_sequence + 1) } else { s.branch_sequence };
                let mv = MetricView {
                    sequence,
                    entry_id: id,
                    timestamp: entry_timestamp(entry),
                    provider: or_empty(first_str(m, seq!["provider"@])),
                    model: or_empty(first_str(m, seq!["model"@])),
                    usage: u,
                    on_branch: on,
                    estimated: est,
                    branch_sequence: if on { Some(branch_sequence) } else { None },
                    cache_hit: hit_fraction_spec(u.0, u.2, u.3),
                };
                MetricsModel {
                    all: s.all.push(mv),
                    branch: if on { s.branch.push(mv) } else { s.branch },
                    tree,
                    branch_totals: if on { add_totals(s.branch_totals, u) } else { s.branch_totals },
                    sequence,
                    branch_sequence,
                    estimated,
                }
            },
        }
    }
}

/// The graph after the first `n` entries.
pub open spec fn metrics_upto(items: Seq<Json>, leaf: Option<Seq<char>>, n: int) -> MetricsModel
    decreases n,
{
    if n <= 0 || n > items.len() {
        MetricsModel {
            all: Seq::empty(),
            branch: Seq::empty(),
            tree: zero_totals(),
            branch_totals: zero_totals(),
            sequence: 0,
            branch_sequence: 0,
            estimated: 0,
        }
    } else {
        metrics_step(metrics_upto(items, leaf, n - 1), items, leaf, items[n - 1])
    }
}

/// The entries of a `get_entries` payload: its `entries` array, or the
/// payload itself when it is an array.
pub open spec fn payload_entries(payload: Json) -> Seq<Json> {
    match field(payload, "entries"@) {
        Some(Json::Array(v)) => v@,
        _ => match payload {
            Json::Array(v) => v@,
            _ => Seq::empty(),
        },
    }
}

/// The cache graph of a `get_entries` payload.
pub open spec fn session_metrics(payload: Json) -> MetricsModel {
    let items = payload_entries(payload);
    metrics_upto(items, first_str(payload, seq!["leafId"@, "leaf_id"@]), items.len() as int)
}

fn add_to_totals(t: &mut CacheTotals, u: &UsageCounts)
    ensures
        *final(t) == add_totals(*old(t), (u.input, u.output, u.cache_read, u.cache_write, u.total_tokens)),
{
    t.input = t.input.saturating_add(u.input);
    t.output = t.output.saturating_add(u.output);
    t.cache_read = t.cache_read.saturating_add(u.cache_read);
    t.cache_write = t.cache_write.saturating_add(u.cache_write);
    t.total_tokens = t.total_tokens.saturating_add(u.total_tokens);
    t.assistant_messages = t.assistant_messages.saturating_add(1);
}

fn sat_inc(n: u32) -> (r: u32)
    ensures
        r == sat32(n + 1),
{
    if n == u32::MAX { n } else { n + 1 }
}

fn entry_id_of(entry: &Json, message: &Json) -> (r: String)
    requires
        *message == entry_message(*entry),
    ensures
        r@ == entry_id_spec(*entry),
{
    match str1(entry, "id") {
        Some(x) => to_owned(x),
        None => match str1(message, "id") {
            Some(x) => to_owned(x),
            None => String::new(),
        },
    }
}

fn timestamp_of(entry: &Json, message: &Json) -> (r: String)
    requires
        *message == entry_message(*entry),
    ensures
        r@ == entry_timestamp(*entry),
{
    match str1(entry, "timestamp") {
        Some(t) => return to_owned(t),
        None => {},
    }
    match str1(message, "timestamp") {
        Some(t) => return to_owned(t),
        None => {},
    }
    match message.get("timestamp") {
        Some(v) => match v.as_u64() {
            Some(n) => u64_to_string(n),
            None => match v.as_i64() {
                Some(i) => u64_to_string(i as u64),
                None => String::new(),
            },
        },
        None => String::new(),
    }
}

fn entry_message_of(entry: &Json) -> (r: &Json)
    ensures
        *r == entry_message(*entry),
{
    match entry.get("message") {
        Some(m) => m,
        None => entry,
    }
}

fn is_assistant_entry_exec(entry: &Json, message: &Json) -> (r: bool)
    requires
        *message == entry_message(*entry),
    ensures
        r == is_assistant_entry(*entry),
{
    let kind = str_or_empty(str2(entry, "type", "kind"));
    let lowered = to_ascii_lowercase(kind.as_str());
    if !str_eq(lowered.as_str(), "message") {
        return false;
    }
    match str1(message, "role") {
        Some(r) => str_eq(r, "assistant"),
        None => false,
    }
}

/// Collect the cache graph of a Pi `get_entries` payload (see
/// [`session_metrics`]).
pub fn collect_cache_session_metrics(payload: &Json) -> (r: CacheSessionMetrics)
    ensures
        metric_views(r.all_messages@) == session_metrics(*payload).all,
        metric_views(r.active_branch_messages@) == session_metrics(*payload).branch,
        r.tree_totals == session_metrics(*payload).tree,
        r.active_branch_totals == session_metrics(*payload).branch_totals,
        r.estimated_count == session_metrics(*payload).estimated,
{
    let empty: Vec<Json> = Vec::new();
    let items: &Vec<Json> = match payload.get("entries") {
        Some(Json::Array(v)) => v,
        _ => match payload {
            Json::Array(v) => v,
            _ => &empty,
        },
    };
    assert(items@ == payload_entries(*payload));
    let leaf = str2(payload, "leafId", "leaf_id");
    let ghost lv = opt_str_view(leaf);
    let branch = active_branch(items, leaf);
    let mut all: Vec<CacheMessageMetric> = Vec::new();
    let mut active: Vec<CacheMessageMetric> = Vec::new();
    let mut tree = CacheTotals { input: 0, output: 0, cache_read: 0, cache_write: 0, total_tokens: 0, assistant_messages: 0 };
    let mut branch_totals = tree;
    let mut sequence: u32 = 0;
    let mut branch_sequence: u32 = 0;
    let mut estimated: u32 = 0;
    let mut i: usize = 0;
    while i < items.len()
        invariant
            i <= items.len(),
            forall|id: Seq<char>| branch_has(branch, id) == on_branch(items@, lv, id),
            metric_views(all@) == metrics_upto(items@, lv, i as int).all,
            metric_views(active@) == metrics_upto(items@, lv, i as int).branch,
            tree == metrics_upto(items@, lv, i as int).tree,
            branch_totals == metrics_upto(items@, lv, i as int).branch_totals,
            sequence == metrics_upto(items@, lv, i as int).sequence,
            branch_sequence == metrics_upto(items@, lv, i as int).branch_sequence,
            estimated == metrics_upto(items@, lv, i as int).estimated,
        decreases items.len() - i,
    {
        let entry = &items[i];
        let message = entry_message_of(entry);
        if is_assistant_entry_exec(entry, message) {
            match assistant_turn_usage(message) {
                Some((u, est)) => {
                    sequence = sat_inc(sequence);
                    if est {
                        estimated = sat_inc(estimated);
                    }
                    let entry_id = entry_id_of(entry, message);
                    let on = branch_contains(&branch, entry_id.as_str());
                    add_to_totals(&mut tree, &u);
                    let mut metric = CacheMessageMetric {
                        sequence,
                        entry_id,
                        timestamp: timestamp_of(entry, message),
                        provider: str_or_empty(str1(message, "provider")),
                        model: str_or_empty(str1(message, "model")),
                        input: u.input,
                        output: u.output,
                        cache_read: u.cache_read,
                        cache_write: u.cache_write,
                        total_tokens: u.total_tokens,
                        is_on_active_branch: on,
                        usage_estimated: est,
                        active_branch_sequence: None,
                        cache_hit: cache_hit_fraction(u.input, u.cache_read, u.cache_write),
                    };
                    let ghost all_before = all@;
                    let ghost active_before = active@;
                    if on {
                        branch_sequence = sat_inc(branch_sequence);
                        metric.active_branch_sequence = Some(branch_sequence);
                        add_to_totals(&mut branch_totals, &u);
                        active.push(metric.clone_metric());
                        assert(metric_views(active@) =~= metric_views(active_before).push(metric_view(metric)));
                    }
                    all.push(metric);
                    assert(metric_views(all@) =~= metric_views(all_before).push(metric_view(metric)));
                },
                None => {},
            }
        }
        i = i + 1;
    }
    CacheSessionMetrics {
        all_messages: all,
        active_branch_messages: active,
        tree_totals: tree,
        active_branch_totals: branch_totals,
        estimated_count: estimated,
    }
}

impl CacheMessageMetric {
    /// A copy of the metric.
    pub fn clone_metric(&self) -> (r: CacheMessageMetric)
        ensures
            metric_view(r) == metric_view(*self),
    {
        CacheMessageMetric {
            sequence: self.sequence,
            entry_id: self.entry_id.clone(),
            timestamp: self.timestamp.clone(),
            provider: self.provider.clone(),
            model: self.model.clone(),
            input: self.input,
            output: self.output,
            cache_read: self.cache_read,
            cache_write: self.cache_write,
            total_tokens: self.total_tokens,
            is_on_active_branch: self.is_on_active_branch,
            usage_estimated: self.usage_estimated,
            active_branch_sequence: self.active_branch_sequence,
            cache_hit: self.cache_hit,
        }
    }
}

/// The cache hit rate as a fraction: `(cacheRead, input + cacheRead +
/// cacheWrite)` (saturating), `None` when nothing was read.
pub open spec fn hit_fraction_spec(input: u64, cache_read: u64, cache_write: u64) -> Option<(u64, u64)> {
    if sat(input + cache_read + cache_write) == 0 {
        None
    } else {
        Some((cache_read, sat(input + cache_read + cache_write)))
    }
}

/// The cache hit rate of a turn as a fraction: cache reads over everything
/// read (`input + cacheRead + cacheWrite`, saturating); `None` when nothing
/// was read, where the graph shows 0 %.
pub fn cache_hit_fraction(input: u64, cache_read: u64, cache_write: u64) -> (r: Option<(u64, u64)>)
    ensures
        r == hit_fraction_spec(input, cache_read, cache_write),
        sat(input + cache_read + cache_write) == 0 ==> r is None,
        sat(input + cache_read + cache_write) != 0 ==> r == Some((cache_read, sat(input + cache_read + cache_write))),
{
    let denominator = input.saturating_add(cache_read).saturating_add(cache_write);
    if denominator == 0 {
        None
    } else {
        Some((cache_read, denominator))
    }
}

/// Laws of the graph: turns are numbered 1, 2, … in entry order, the
/// branch's turns 1, 2, … among themselves; every turn counts once in the
/// tree totals and every branch turn once in the branch totals; at most every
/// turn is estimated.
pub proof fn law_turns_numbered_and_counted(items: Seq<Json>, leaf: Option<Seq<char>>, n: int)
    requires
        0 <= n <= items.len(),
        items.len() <= u32::MAX,
    ensures
        metrics_upto(items, leaf, n).sequence == metrics_upto(items, leaf, n).all.len(),
        metrics_upto(items, leaf, n).branch_sequence == metrics_upto(items, leaf, n).branch.len(),
        metrics_upto(items, leaf, n).tree.assistant_messages == metrics_upto(items, leaf, n).all.len(),
        metrics_upto(items, leaf, n).branch_totals.assistant_messages == metrics_upto(items, leaf, n).branch.len(),
        metrics_upto(items, leaf, n).estimated <= metrics_upto(items, leaf, n).all.len(),
        metrics_upto(items, leaf, n).all.len() <= n,
        metrics_upto(items, leaf, n).branch.len() <= metrics_upto(items, leaf, n).all.len(),
        forall|k: int| 0 <= k < metrics_upto(items, leaf, n).all.len() ==> (#[trigger] metrics_upto(items, leaf, n).all[k]).sequence == k + 1,
        forall|k: int| 0 <= k < metrics_upto(items, leaf, n).branch.len() ==> (#[trigger] metrics_upto(items, leaf, n).branch[k]).branch_sequence == Some((k + 1) as u32)
            && metrics_upto(items, leaf, n).branch[k].on_branch,
    decreases n,
{
    if n > 0 {
        law_turns_numbered_and_counted(items, leaf, n - 1);
        let prev = metrics_upto(items, leaf, n - 1);
        let cur = metrics_upto(items, leaf, n);
        assert(cur == metrics_step(prev, items, leaf, items[n - 1]));
        if cur.all.len() > prev.all.len() {
            assert forall|k: int| 0 <= k < cur.all.len() implies (#[trigger] cur.all[k]).sequence == k + 1 by {
                if k < prev.all.len() {
                    assert(cur.all[k] == prev.all[k]);
                }
            }
            assert forall|k: int| 0 <= k < cur.branch.len() implies (#[trigger] cur.branch[k]).branch_sequence == Some((k + 1) as u32)
                && cur.branch[k].on_branch by {
                if k < prev.branch.len() {
                    assert(cur.branch[k] == prev.branch[k]);
                }
            }
        }
    }
}


/// The rows that are on the active branch, in order.
pub open spec fn branch_rows(rows: Seq<MetricView>) -> Seq<MetricView>
    decreases rows.len(),
{
    if rows.len() == 0 {
        Seq::empty()
    } else if rows.last().on_branch {
        branch_rows(rows.drop_last()).push(rows.last())
    } else {
        branch_rows(rows.drop_last())
    }
}

/// The token sums of some rows (saturating), and their number.
pub open spec fn totals_of(rows: Seq<MetricView>) -> CacheTotals
    decreases rows.len(),
{
    if rows.len() == 0 {
        zero_totals()
    } else {
        add_totals(totals_of(rows.drop_last()), rows.last().usage)
    }
}

/// What the graph is: the active branch's rows are exactly the rows on the
/// branch, in order; the tree totals sum every row and the branch totals
/// every branch row; and a row is on the branch exactly when its entry is
/// on the parent chain from `leafId` (without a `leafId`: every row, unless
/// the entries carry ids, then the rows whose id some entry carries).
pub proof fn law_branch_rows_and_totals(items: Seq<Json>, leaf: Option<Seq<char>>, n: int)
    requires
        0 <= n <= items.len(),
    ensures
        metrics_upto(items, leaf, n).branch == branch_rows(metrics_upto(items, leaf, n).all),
        metrics_upto(items, leaf, n).tree == totals_of(metrics_upto(items, leaf, n).all),
        metrics_upto(items, leaf, n).branch_totals == totals_of(metrics_upto(items, leaf, n).branch),
        forall|k: int|
            0 <= k < metrics_upto(items, leaf, n).all.len() ==> (#[trigger] metrics_upto(items, leaf, n).all[k]).on_branch
                == on_branch(items, leaf, metrics_upto(items, leaf, n).all[k].entry_id),
        forall|k: int|
            0 <= k < metrics_upto(items, leaf, n).all.len() ==> (leaf matches Some(l) ==> ((
            #[trigger] metrics_upto(items, leaf, n).all[k]).on_branch <==> exists|j: nat|
                ancestor(items, l, j) == Some(metrics_upto(items, leaf, n).all[k].entry_id))),
    decreases n,
{
    if n > 0 {
        law_branch_rows_and_totals(items, leaf, n - 1);
        let prev = metrics_upto(items, leaf, n - 1);
        let cur = metrics_upto(items, leaf, n);
        assert(cur == metrics_step(prev, items, leaf, items[n - 1]));
        if cur.all.len() > prev.all.len() {
            assert(cur.all.drop_last() =~= prev.all);
            if cur.all.last().on_branch {
                assert(cur.branch.drop_last() =~= prev.branch);
            }
            assert forall|k: int| 0 <= k < cur.all.len() implies (#[trigger] cur.all[k]).on_branch == on_branch(
                items,
                leaf,
                cur.all[k].entry_id,
            ) by {
                if k < prev.all.len() {
                    assert(cur.all[k] == prev.all[k]);
                }
            }
        }
    }
}


/// The count that member `name` of a usage object holds, if it reads as one.
pub open spec fn count_at(u: Json, name: Seq<char>) -> Option<u64> {
    json_u64_spec(field(u, name))
}

/// Which members a turn's usage counts come from: input from `input`, else
/// `prompt_tokens`, else `promptTokens`; output from `output`, else
/// `completion_tokens`, else `completionTokens` (OpenAI-style names count
/// too); cache reads from `cacheRead`, `cache_read`, `cached_tokens` or
/// `cachedTokens`; cache writes from `cacheWrite` or `cache_write` — the
/// first that reads as a count, else 0 — and the total is `totalTokens` (or
/// `total_tokens`), raised to the sum of the four parts when it is smaller.
pub proof fn law_usage_member_names(message: Json)
    requires
        field(message, "usage"@) matches Some(u) && u is Object,
    ensures
        ({
            let u = field(message, "usage"@).unwrap();
            let r = reported_usage(message);
            &&& r.0 == match count_at(u, "input"@) {
                Some(n) => n,
                None => match count_at(u, "prompt_tokens"@) {
                    Some(n) => n,
                    None => match count_at(u, "promptTokens"@) {
                        Some(n) => n,
                        None => 0u64,
                    },
                },
            }
            &&& r.1 == match count_at(u, "output"@) {
                Some(n) => n,
                None => match count_at(u, "completion_tokens"@) {
                    Some(n) => n,
                    None => match count_at(u, "completionTokens"@) {
                        Some(n) => n,
                        None => 0u64,
                    },
                },
            }
            &&& r.2 == match count_at(u, "cacheRead"@) {
                Some(n) => n,
                None => match count_at(u, "cache_read"@) {
                    Some(n) => n,
                    None => match count_at(u, "cached_tokens"@) {
                        Some(n) => n,
                        None => match count_at(u, "cachedTokens"@) {
                            Some(n) => n,
                            None => 0u64,
                        },
                    },
                },
            }
            &&& r.3 == match count_at(u, "cacheWrite"@) {
                Some(n) => n,
                None => match count_at(u, "cache_write"@) {
                    Some(n) => n,
                    None => 0u64,
                },
            }
            &&& r.4 >= match count_at(u, "totalTokens"@) {
                Some(n) => n,
                None => match count_at(u, "total_tokens"@) {
                    Some(n) => n,
                    None => 0u64,
                },
            }
            &&& r.4 == sat(r.0 + r.1 + r.2 + r.3) || r.4 == match count_at(u, "totalTokens"@) {
                Some(n) => n,
                None => match count_at(u, "total_tokens"@) {
                    Some(n) => n,
                    None => 0u64,
                },
            }
            &&& r.4 >= sat(r.0 + r.1 + r.2 + r.3)
        }),
{
    reveal_with_fuel(usage_field_spec, 5);
}

/// A message without a `usage` object reports no tokens.
pub proof fn law_no_usage_reports_nothing(message: Json)
    requires
        !(field(message, "usage"@) matches Some(u) && u is Object),
    ensures
        reported_usage(message) == (0u64, 0u64, 0u64, 0u64, 0u64),
{
}

} // verus!
