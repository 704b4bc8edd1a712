//! Context-window accounting: the character-based token estimates, their
//! scaling onto Pi's authoritative used-token count, and the numbers of the
//! pager's context panel.
use crate::path::{file_name, file_name_spec};
use crate::cache_metrics::{entry_message, payload_entries, sat, utf8_len};
use crate::json::{
    field, first_str, first_u64, opt_deref, or_empty, str1, str2, str_of, str_or_empty, u64_2, u64_of, json_model, Json, JsonModel,
};
use crate::model::PiModel;
use crate::text::{contains_text, decimal, has_infix, lower, push_decimal, push_str, str_eq, to_ascii_lowercase, to_owned};
use vstd::prelude::*;
use vstd::string::StringSliceAdditionalSpecFns;

verus! {

/// Sum of a sequence of counts.
pub open spec fn sum_seq(s: Seq<u64>) -> nat
    decreases s.len(),
{
    if s.len() == 0 {
        0
    } else {
        sum_seq(s.drop_last()) + (s.last() as nat)
    }
}

/// `n / d` rounded to the nearest integer, halves rounded up.
pub open spec fn round_div(n: nat, d: nat) -> nat {
    ((2 * n + d) / (2 * d)) as nat
}

/// The token estimate of a text of `bytes` UTF-8 bytes (`ceil(len / 4)`).
pub open spec fn estimate_spec(bytes: nat) -> nat {
    (bytes + 3) / 4
}

/// Approximate token count of `text`, as the pi-context extension counts it:
/// a quarter of its UTF-8 length, rounded up.
pub fn estimate_tokens_text(text: &str) -> (r: u64)
    ensures
        r == estimate_spec(text.spec_bytes().len()),
{
    let n = text.as_bytes().len();
    let q = n / 4;
    let r = if n % 4 == 0 { q } else { q + 1 };
    assert(r == (n + 3) / 4) by (nonlinear_arith)
        requires
            r == (if n % 4 == 0 { (n / 4) as int } else { (n / 4 + 1) as int }),
    ;
    r as u64
}

/// Index of the last largest element of `s` (`max_by_key` keeps the last
/// of equal maxima).
pub open spec fn last_argmax(s: Seq<u64>) -> int
    decreases s.len(),
{
    if s.len() <= 1 {
        0
    } else {
        let i = last_argmax(s.drop_last());
        if s.last() >= s[i] {
            s.len() - 1
        } else {
            i
        }
    }
}

/// Each part scaled by `used / total`, rounded.
pub open spec fn scaled_parts(parts: Seq<u64>, used: u64, total: nat) -> Seq<u64> {
    parts.map_values(|p: u64| round_div((p * used) as nat, total) as u64)
}

/// `s` with `e` taken away, from the last bucket backwards, no bucket
/// going below zero.
pub open spec fn drain_back(s: Seq<u64>, e: nat) -> Seq<u64>
    decreases s.len(),
{
    if s.len() == 0 {
        s
    } else {
        let t: nat = if s.last() as nat >= e { e } else { s.last() as nat };
        drain_back(s.drop_last(), (e - t) as nat).push((s.last() - t) as u64)
    }
}

/// `parts` scaled so that they add up to `used` (pi-context's ratio trick):
/// each part scaled by `used / sum(parts)` and rounded; then the rounding
/// drift goes to the last largest bucket, and an excess that this bucket
/// cannot absorb is taken from the other buckets, from the last one
/// backwards.  All zero when either total is zero.
pub open spec fn scale_spec(parts: Seq<u64>, used: u64) -> Seq<u64> {
    let total = sum_seq(parts);
    if total == 0 || used == 0 {
        Seq::new(parts.len(), |i: int| 0u64)
    } else {
        let b = scaled_parts(parts, used, total);
        let s = sum_seq(b);
        let idx = last_argmax(b);
        if s == used {
            b
        } else if s > used {
            let ex: nat = (s - used) as nat;
            let t: nat = if b[idx] as nat >= ex { ex } else { b[idx] as nat };
            drain_back(b.update(idx, (b[idx] - t) as u64), (ex - t) as nat)
        } else {
            b.update(idx, (b[idx] + (used - s)) as u64)
        }
    }
}

proof fn lemma_drain_back(s: Seq<u64>, e: nat)
    ensures
        drain_back(s, e).len() == s.len(),
        sum_seq(drain_back(s, e)) == if e <= sum_seq(s) { (sum_seq(s) - e) as nat } else { 0nat },
    decreases s.len(),
{
    if s.len() > 0 {
        let t: nat = if s.last() as nat >= e { e } else { s.last() as nat };
        lemma_drain_back(s.drop_last(), (e - t) as nat);
        let d = drain_back(s.drop_last(), (e - t) as nat);
        assert(d.push((s.last() - t) as u64).drop_last() =~= d);
    }
}

proof fn lemma_sum_prefix(s: Seq<u64>, i: int)
    requires
        0 <= i <= s.len(),
    ensures
        sum_seq(s.take(i)) <= sum_seq(s),
    decreases s.len() - i,
{
    if i < s.len() {
        lemma_sum_prefix(s, i + 1);
        assert(s.take(i + 1).drop_last() =~= s.take(i));
    } else {
        assert(s.take(i) =~= s);
    }
}

proof fn lemma_sum_update(s: Seq<u64>, i: int, v: u64)
    requires
        0 <= i < s.len(),
    ensures
        sum_seq(s.update(i, v)) + s[i] == sum_seq(s) + v,
    decreases s.len(),
{
    if i < s.len() - 1 {
        lemma_sum_update(s.drop_last(), i, v);
        assert(s.update(i, v).drop_last() =~= s.drop_last().update(i, v));
    } else {
        assert(s.update(i, v).drop_last() =~= s.drop_last());
    }
}

proof fn lemma_argmax_range(s: Seq<u64>)
    requires
        s.len() > 0,
    ensures
        0 <= last_argmax(s) < s.len(),
    decreases s.len(),
{
    if s.len() > 1 {
        lemma_argmax_range(s.drop_last());
    }
}

proof fn lemma_round_div(n: nat, d: nat, q: nat, r: nat)
    requires
        d > 0,
        n == q * d + r,
        r < d,
    ensures
        round_div(n, d) == if 2 * r >= d { q + 1 } else { q },
{
    assert((2 * n + d) == (2 * d) * q + (2 * r + d)) by (nonlinear_arith)
        requires
            n == q * d + r,
    ;
    if 2 * r >= d {
        assert((2 * r + d) - 2 * d < 2 * d);
        assert(((2 * d) * q + (2 * r + d)) == (2 * d) * (q + 1) + (2 * r + d - 2 * d)) by (nonlinear_arith);
        vstd::arithmetic::div_mod::lemma_fundamental_div_mod_converse(
            ((2 * d) * (q + 1) + (2 * r + d - 2 * d)) as int,
            (2 * d) as int,
            (q + 1) as int,
            (2 * r + d - 2 * d) as int,
        );
    } else {
        vstd::arithmetic::div_mod::lemma_fundamental_div_mod_converse(
            ((2 * d) * q + (2 * r + d)) as int,
            (2 * d) as int,
            q as int,
            (2 * r + d) as int,
        );
    }
}

/// `round_div(p * used, total)` for `p <= total`, which never exceeds `used`.
fn round_scaled(p: u64, used: u64, total: u64) -> (r: u64)
    requires
        total > 0,
        p <= total,
    ensures
        r == round_div((p * used) as nat, total as nat),
        r <= used,
{
    assert((p as u128) * (used as u128) <= u128::MAX) by (nonlinear_arith)
        requires
            p <= u64::MAX,
            used <= u64::MAX,
    ;
    let prod: u128 = (p as u128) * (used as u128);
    let t: u128 = total as u128;
    let q: u128 = prod / t;
    let rem: u128 = prod % t;
    proof {
        vstd::arithmetic::div_mod::lemma_fundamental_div_mod(prod as int, t as int);
        assert(prod == q * t + rem) by (nonlinear_arith)
            requires
                prod == t * q + rem,
        ;
        lemma_round_div(prod as nat, t as nat, q as nat, rem as nat);
        assert(prod <= t * used) by (nonlinear_arith)
            requires
                prod == (p as u128) * (used as u128),
                p <= total,
                t == total,
        ;
        assert(q <= used) by (nonlinear_arith)
            requires
                prod == t * q + rem,
                prod <= t * used,
                rem >= 0,
                t > 0,
        ;
        if q == used {
            assert(rem == 0) by (nonlinear_arith)
                requires
                    prod == t * q + rem,
                    prod <= t * used,
                    q == used,
            ;
        }
    }
    let v: u128 = if 2 * rem >= t { q + 1 } else { q };
    v as u64
}

/// Scale char-based estimates so that they add up to Pi's authoritative
/// used-token count.
pub fn scale_token_parts(parts: &[u64], used: u64) -> (r: Vec<u64>)
    requires
        sum_seq(parts@) <= u64::MAX,
    ensures
        r@ == scale_spec(parts@, used),
        r@.len() == parts@.len(),
        sum_seq(parts@) > 0 && used > 0 ==> sum_seq(r@) == used,
{
    proof {
        lemma_scale_len(parts@, used);
        if sum_seq(parts@) > 0 && used > 0 {
            law_scaled_parts_sum_to_used(parts@, used);
        }
    }
    let mut total: u64 = 0;
    let mut i: usize = 0;
    while i < parts.len()
        invariant
            i <= parts.len(),
            sum_seq(parts@) <= u64::MAX,
            total == sum_seq(parts@.take(i as int)),
        decreases parts.len() - i,
    {
        proof {
            assert(parts@.take(i + 1).drop_last() =~= parts@.take(i as int));
            lemma_sum_prefix(parts@, i + 1);
        }
        total = total + parts[i];
        i = i + 1;
    }
    assert(parts@.take(parts.len() as int) =~= parts@);
    if total == 0 || used == 0 {
        let mut zeros: Vec<u64> = Vec::new();
        while zeros.len() < parts.len()
            invariant
                zeros.len() <= parts.len(),
                forall|k: int| 0 <= k < zeros.len() ==> zeros@[k] == 0,
            decreases parts.len() - zeros.len(),
        {
            zeros.push(0);
        }
        assert(zeros@ =~= Seq::new(parts@.len(), |i: int| 0u64));
        return zeros;
    }
    let ghost b = scaled_parts(parts@, used, total as nat);
    let mut scaled: Vec<u64> = Vec::new();
    let mut sum: u128 = 0;
    let mut best: usize = 0;
    let mut j: usize = 0;
    while j < parts.len()
        invariant
            j <= parts.len(),
            total == sum_seq(parts@),
            total > 0,
            b == scaled_parts(parts@, used, total as nat),
            scaled@ == b.take(j as int),
            sum == sum_seq(b.take(j as int)),
            sum <= j * (u64::MAX as int),
            j > 0 ==> best == last_argmax(b.take(j as int)) && best < j,
        decreases parts.len() - j,
    {
        proof {
            lemma_sum_prefix(parts@, j as int);
            lemma_sum_prefix(parts@, j + 1);
            assert(parts@.take(j + 1).drop_last() =~= parts@.take(j as int));
            assert(b.take(j + 1).drop_last() =~= b.take(j as int));
        }
        let v = round_scaled(parts[j], used, total);
        assert(v == b[j as int]);
        if j == 0 || v >= scaled[best] {
            best = j;
        }
        scaled.push(v);
        proof {
            assert(sum + v <= (j + 1) * (u64::MAX as int)) by (nonlinear_arith)
                requires
                    sum <= j * (u64::MAX as int),
                    v <= u64::MAX,
            ;
        }
        sum = sum + v as u128;
        assert(scaled@ =~= b.take(j + 1));
        j = j + 1;
    }
    assert(b.take(parts.len() as int) =~= b);
    let u: u128 = used as u128;
    proof {
        lemma_argmax_range(b);
        lemma_bucket_sum_bound(b, best as int);
    }
    if sum < u {
        let cur = scaled[best];
        scaled.set(best, cur + (used - sum as u64));
    } else if sum > u {
        let cur = scaled[best];
        let ex: u128 = sum - u;
        let t: u128 = if (cur as u128) >= ex { ex } else { cur as u128 };
        scaled.set(best, (cur as u128 - t) as u64);
        let ghost b1 = scaled@;
        let ghost e0: nat = (ex - t) as nat;
        let mut rem: u128 = ex - t;
        let mut k: usize = scaled.len();
        assert(b1.take(k as int) =~= b1);
        assert(scaled@.skip(k as int) =~= Seq::<u64>::empty());
        while k > 0
            invariant
                k <= scaled.len(),
                scaled.len() == b1.len(),
                scaled@.take(k as int) =~= b1.take(k as int),
                drain_back(b1, e0) =~= drain_back(b1.take(k as int), rem as nat) + scaled@.skip(k as int),
            decreases k,
        {
            let x = scaled[k - 1];
            assert(x == b1[k - 1]);
            let tk: u128 = if (x as u128) >= rem { rem } else { x as u128 };
            let ghost old_s = scaled@;
            let ghost pre = b1.take(k - 1);
            proof {
                assert(b1.take(k as int).drop_last() =~= pre);
                assert(b1.take(k as int).last() == x);
            }
            let ghost d = drain_back(pre, (rem - tk) as nat);
            assert(drain_back(b1.take(k as int), rem as nat) == d.push((x - tk) as u64));
            scaled.set(k - 1, (x as u128 - tk) as u64);
            rem = rem - tk;
            k = k - 1;
            proof {
                assert(scaled@.skip(k as int) =~= seq![(x - tk) as u64] + old_s.skip(k + 1));
                assert(d.push((x - tk) as u64) + old_s.skip(k + 1) =~= d + (seq![(x - tk) as u64] + old_s.skip(k + 1)));
                assert(scaled@.take(k as int) =~= old_s.take(k as int));
                assert(old_s.take(k as int) =~= b1.take(k as int));
            }
        }
        assert(b1.take(0) =~= Seq::<u64>::empty());
        assert(scaled@.skip(0) =~= scaled@);
    }
    scaled
}

/// The scaled parts add up to `used` whenever there is something to scale.
pub proof fn law_scaled_parts_sum_to_used(parts: Seq<u64>, used: u64)
    requires
        sum_seq(parts) > 0,
        used > 0,
    ensures
        sum_seq(scale_spec(parts, used)) == used,
        scale_spec(parts, used).len() == parts.len(),
{
    let b = scaled_parts(parts, used, sum_seq(parts));
    let s = sum_seq(b);
    let idx = last_argmax(b);
    if parts.len() == 0 {
        assert(sum_seq(parts) == 0);
    }
    lemma_argmax_range(b);
    lemma_bucket_sum_bound(b, idx);
    if s > used {
        let ex: nat = (s - used) as nat;
        let t: nat = if b[idx] as nat >= ex { ex } else { b[idx] as nat };
        let b1 = b.update(idx, (b[idx] - t) as u64);
        lemma_sum_update(b, idx, (b[idx] - t) as u64);
        lemma_drain_back(b1, (ex - t) as nat);
    } else if s < used {
        lemma_sum_update(b, idx, (b[idx] + (used - s)) as u64);
    }
    lemma_scale_len(parts, used);
}

proof fn lemma_scale_len(parts: Seq<u64>, used: u64)
    ensures
        scale_spec(parts, used).len() == parts.len(),
{
    let b = scaled_parts(parts, used, sum_seq(parts));
    if b.len() > 0 {
        lemma_argmax_range(b);
        let s = sum_seq(b);
        let idx = last_argmax(b);
        if s > used {
            let ex: nat = (s - used) as nat;
            let t: nat = if b[idx] as nat >= ex { ex } else { b[idx] as nat };
            lemma_drain_back(b.update(idx, (b[idx] - t) as u64), (ex - t) as nat);
        }
    }
}

proof fn lemma_bucket_sum_bound(s: Seq<u64>, i: int)
    requires
        0 <= i < s.len(),
    ensures
        s[i] <= sum_seq(s),
    decreases s.len(),
{
    if i < s.len() - 1 {
        lemma_bucket_sum_bound(s.drop_last(), i);
    }
}


/// The label of a context file row: its file name, else the path, else
/// `Project context` for an empty path.
pub open spec fn file_label_spec(path: Seq<char>) -> Seq<char> {
    match file_name_spec(path) {
        Some(n) => if n.len() > 0 {
            n
        } else if path.len() == 0 {
            "Project context"@
        } else {
            path
        },
        None => if path.len() == 0 {
            "Project context"@
        } else {
            path
        },
    }
}

/// The label of the context panel row for context file `path`.
pub fn context_file_label(path: &str) -> (r: String)
    ensures
        r@ == file_label_spec(path@),
{
    match file_name(path) {
        Some(n) => if !n.as_str().is_empty() {
            return n;
        },
        None => {},
    }
    if path.is_empty() {
        String::from_str("Project context")
    } else {
        to_owned(path)
    }
}

/// A context file that the breakdown extension measured.
#[derive(Debug, Clone)]
pub struct ContextFileRaw {
    pub path: String,
    pub tokens_raw: u64,
}

/// The raw system / tool / file breakdown written by the context breakdown
/// command, in `ceil(len / 4)` estimates.
#[derive(Debug, Clone)]
pub struct ContextBreakdownRaw {
    pub system_prompt_tokens_raw: u64,
    pub tool_definitions_count: u64,
    pub tool_definitions_tokens_raw: u64,
    pub append_tokens_raw: u64,
    pub context_files: Vec<ContextFileRaw>,
    pub skills_count: u64,
    pub skills_tokens_raw: u64,
}

impl ContextBreakdownRaw {
    /// An empty breakdown.
    pub fn empty() -> (b: Self)
        ensures
            b.system_prompt_tokens_raw == 0,
            b.tool_definitions_count == 0,
            b.tool_definitions_tokens_raw == 0,
            b.append_tokens_raw == 0,
            b.context_files@.len() == 0,
            b.skills_count == 0,
            b.skills_tokens_raw == 0,
    {
        ContextBreakdownRaw {
            system_prompt_tokens_raw: 0,
            tool_definitions_count: 0,
            tool_definitions_tokens_raw: 0,
            append_tokens_raw: 0,
            context_files: Vec::new(),
            skills_count: 0,
            skills_tokens_raw: 0,
        }
    }
}

/// The raw message-window estimate, in pi-context's categories.
#[derive(Debug, Clone, Copy, PartialEq, Eq, Structural)]
pub struct MessageTokenEstimate {
    /// User and assistant text (and thoughts).
    pub messages: u64,
    /// Tool calls and tool results.
    pub tool_payload: u64,
    pub compaction_count: u64,
}

/// One informational row of the context panel.
#[derive(Debug, Clone)]
pub struct UsageRow {
    pub label: String,
    pub tokens: u64,
    pub detail: Option<String>,
}

/// The numbers of the pager's context panel.
#[derive(Debug, Clone)]
pub struct SessionContext {
    pub used: u64,
    pub total: u64,
    pub system_prompt_tokens: u64,
    pub tool_definitions_count: u64,
    pub tool_definitions_tokens: u64,
    pub compaction_count: u64,
    pub message_tokens: u64,
    pub free_tokens: u64,
    pub usage_pct: u8,
    /// The usage percentage at which the pager offers compaction.
    pub auto_compact_threshold_percent: u8,
    pub usage_categories: Vec<UsageRow>,
}

/// `raw` scaled by `used / raw_total` and rounded (saturating); zero when
/// either is zero.
pub open spec fn scale_raw_spec(raw: u64, used: u64, raw_total: nat) -> u64 {
    if raw == 0 || raw_total == 0 || used == 0 {
        0
    } else if round_div((raw * used) as nat, raw_total) > u64::MAX {
        u64::MAX
    } else {
        round_div((raw * used) as nat, raw_total) as u64
    }
}

#[verifier::spinoff_prover]
fn scale_raw(raw: u64, used: u64, raw_total: u64) -> (r: u64)
    ensures
        r == scale_raw_spec(raw, used, raw_total as nat),
{
    if raw == 0 || raw_total == 0 || used == 0 {
        return 0;
    }
    assert((raw as u128) * (used as u128) <= u128::MAX) by (nonlinear_arith)
        requires
            raw <= u64::MAX,
            used <= u64::MAX,
    ;
    let prod: u128 = (raw as u128) * (used as u128);
    let t: u128 = raw_total as u128;
    let q: u128 = prod / t;
    let rem: u128 = prod % t;
    proof {
        vstd::arithmetic::div_mod::lemma_fundamental_div_mod(prod as int, t as int);
        assert(prod == q * t + rem) by (nonlinear_arith)
            requires
                prod == t * q + rem,
        ;
        lemma_round_div(prod as nat, t as nat, q as nat, rem as nat);
        assert(prod <= 0xfffffffffffffffe0000000000000001u128) by (nonlinear_arith)
            requires
                prod == (raw as u128) * (used as u128),
                raw <= u64::MAX,
                used <= u64::MAX,
        ;
        assert(q <= prod) by (nonlinear_arith)
            requires
                prod == t * q + rem,
                t >= 1,
                rem >= 0,
                q >= 0,
        ;
    }
    let v: u128 = if 2 * rem >= t { q + 1 } else { q };
    if v > u64::MAX as u128 {
        u64::MAX
    } else {
        v as u64
    }
}

/// The context-usage percentage when Pi gave none: `used / total`, rounded
/// and capped at 100 (0 for an unknown window).
pub open spec fn usage_pct_spec(percent: Option<u8>, used: u64, total: u64) -> u8 {
    match percent {
        Some(p) => p,
        None => if total == 0 {
            0
        } else if round_div((used * 100) as nat, total as nat) > 100 {
            100
        } else {
            round_div((used * 100) as nat, total as nat) as u8
        },
    }
}

/// The context-usage percentage: Pi's own (already rounded and clamped to
/// `0..=100`) when it reported one, else computed.
pub fn usage_pct(percent: Option<u8>, used: u64, total: u64) -> (r: u8)
    ensures
        r == usage_pct_spec(percent, used, total),
{
    match percent {
        Some(p) => p,
        None => if total == 0 {
            0
        } else {
            let v = scale_raw(100, used, total);
            proof {
                assert(100 * used == used * 100);
                if used == 0 {
                    assert((2 * 0 + total) / (2 * total) == 0) by (nonlinear_arith)
                        requires
                            total > 0,
                    ;
                }
            }
            if v > 100 {
                100
            } else {
                v as u8
            }
        },
    }
}

/// The bar buckets `(system, tool definitions, messages)`: the four raw
/// parts scaled onto `used`; everything in messages when nothing was
/// estimated; all zero when nothing is used.
pub open spec fn bar_buckets(used: u64, parts: Seq<u64>) -> (u64, u64, u64) {
    if used == 0 {
        (0, 0, 0)
    } else if sum_seq(parts) == 0 {
        (0, 0, used)
    } else {
        let s = scale_spec(parts, used);
        (s[0], s[1], s[2])
    }
}

/// The four raw parts of the bar: system prompt, tool definitions, messages
/// and tool payload.
pub open spec fn raw_parts(b: ContextBreakdownRaw, e: MessageTokenEstimate) -> Seq<u64> {
    seq![b.system_prompt_tokens_raw, b.tool_definitions_tokens_raw, e.messages, e.tool_payload]
}

/// `(label, tokens, detail)` of a usage row.
pub open spec fn row_view(r: UsageRow) -> (Seq<char>, u64, Option<Seq<char>>) {
    (r.label@, r.tokens, crate::queue_bridge::opt_view(r.detail))
}

/// The informational rows: the appended system prompt, each measured context
/// file, then skills (with their count).
pub open spec fn usage_rows(b: ContextBreakdownRaw, used: u64, raw_total: nat) -> Seq<(Seq<char>, u64, Option<Seq<char>>)> {
    let append = if b.append_tokens_raw > 0 {
        seq![("Append system prompt"@, scale_raw_spec(b.append_tokens_raw, used, raw_total), None)]
    } else {
        Seq::empty()
    };
    let files = file_rows(b.context_files@, used, raw_total);
    let skills = if b.skills_tokens_raw > 0 || b.skills_count > 0 {
        seq![
            (
                "Skills"@,
                scale_raw_spec(b.skills_tokens_raw, used, raw_total),
                if b.skills_count > 0 {
                    Some(
                        decimal(b.skills_count as nat) + if b.skills_count == 1 {
                            " skill"@
                        } else {
                            " skills"@
                        },
                    )
                } else {
                    None
                },
            ),
        ]
    } else {
        Seq::empty()
    };
    append + files + skills
}

/// One row per context file with a non-zero estimate, in order.
pub open spec fn file_rows(files: Seq<ContextFileRaw>, used: u64, raw_total: nat) -> Seq<(Seq<char>, u64, Option<Seq<char>>)>
    decreases files.len(),
{
    if files.len() == 0 {
        Seq::empty()
    } else {
        let prev = file_rows(files.drop_last(), used, raw_total);
        let f = files.last();
        if f.tokens_raw == 0 {
            prev
        } else {
            prev.push((file_label_spec(f.path@), scale_raw_spec(f.tokens_raw, used, raw_total), Some(f.path@)))
        }
    }
}

/// The context panel for `used` of `total` tokens, with the message estimate
/// and the system / tool breakdown (`percent`: Pi's own percentage, if it
/// reported one).
pub fn session_context(used: u64, total: u64, estimate: MessageTokenEstimate, breakdown: &ContextBreakdownRaw, percent: Option<u8>) -> (r: SessionContext)
    requires
        sum_seq(raw_parts(*breakdown, estimate)) <= u64::MAX,
    ensures
        r.used == used,
        r.total == total,
        (r.system_prompt_tokens, r.tool_definitions_tokens, r.message_tokens) == bar_buckets(
            used,
            raw_parts(*breakdown, estimate),
        ),
        r.tool_definitions_count == breakdown.tool_definitions_count,
        r.compaction_count == estimate.compaction_count,
        r.free_tokens == (if total > used { total - used } else { 0 }),
        r.usage_pct == usage_pct_spec(percent, used, total),
        r.auto_compact_threshold_percent == 85,
        r.usage_categories@.map_values(|x: UsageRow| row_view(x)) == usage_rows(
            *breakdown,
            used,
            sum_seq(raw_parts(*breakdown, estimate)),
        ),
{
    let mut parts: Vec<u64> = Vec::new();
    parts.push(breakdown.system_prompt_tokens_raw);
    parts.push(breakdown.tool_definitions_tokens_raw);
    parts.push(estimate.messages);
    parts.push(estimate.tool_payload);
    let ghost rp = raw_parts(*breakdown, estimate);
    assert(parts@ =~= rp);
    proof {
        reveal_with_fuel(sum_seq, 5);
        assert(rp.drop_last() =~= seq![rp[0], rp[1], rp[2]]);
        assert(rp.drop_last().drop_last() =~= seq![rp[0], rp[1]]);
        assert(rp.drop_last().drop_last().drop_last() =~= seq![rp[0]]);
        assert(rp.drop_last().drop_last().drop_last().drop_last() =~= Seq::<u64>::empty());
        assert(sum_seq(rp) == rp[0] + rp[1] + rp[2] + rp[3]);
    }
    let raw_total: u64 = breakdown.system_prompt_tokens_raw + breakdown.tool_definitions_tokens_raw
        + estimate.messages + estimate.tool_payload;
    let (system, tools, messages) = if used == 0 {
        (0, 0, 0)
    } else if raw_total == 0 {
        (0, 0, used)
    } else {
        let scaled = scale_token_parts(parts.as_slice(), used);
        proof {
            lemma_scale_len(parts@, used);
        }
        (scaled[0], scaled[1], scaled[2])
    };
    let mut rows: Vec<UsageRow> = Vec::new();
    if breakdown.append_tokens_raw > 0 {
        rows.push(
            UsageRow {
                label: String::from_str("Append system prompt"),
                tokens: scale_raw(breakdown.append_tokens_raw, used, raw_total),
                detail: None,
            },
        );
    }
    let ghost head = rows@.map_values(|x: UsageRow| row_view(x));
    let ghost files = breakdown.context_files@;
    let mut i: usize = 0;
    assert(files.take(0) =~= Seq::<ContextFileRaw>::empty());
    assert(head + file_rows(files.take(0), used, raw_total as nat) =~= head);
    while i < breakdown.context_files.len()
        invariant
            i <= breakdown.context_files.len(),
            files == breakdown.context_files@,
            rows@.map_values(|x: UsageRow| row_view(x)) == head + file_rows(
                files.take(i as int),
                used,
                raw_total as nat,
            ),
        decreases breakdown.context_files.len() - i,
    {
        assert(files.take(i + 1).drop_last() =~= files.take(i as int));
        let f = &breakdown.context_files[i];
        if f.tokens_raw != 0 {
            let row = UsageRow {
                label: context_file_label(f.path.as_str()),
                tokens: scale_raw(f.tokens_raw, used, raw_total),
                detail: Some(f.path.clone()),
            };
            let ghost before = rows@;
            rows.push(row);
            assert(rows@.map_values(|x: UsageRow| row_view(x)) =~= before.map_values(
                |x: UsageRow| row_view(x),
            ).push(row_view(row)));
        }
        i = i + 1;
    }
    assert(files.take(files.len() as int) =~= files);
    if breakdown.skills_tokens_raw > 0 || breakdown.skills_count > 0 {
        let detail = if breakdown.skills_count > 0 {
            let mut d = String::new();
            push_decimal(&mut d, breakdown.skills_count);
            if breakdown.skills_count == 1 {
                push_str(&mut d, " skill");
            } else {
                push_str(&mut d, " skills");
            }
            Some(d)
        } else {
            None
        };
        let row = UsageRow {
            label: String::from_str("Skills"),
            tokens: scale_raw(breakdown.skills_tokens_raw, used, raw_total),
            detail,
        };
        let ghost before = rows@;
        rows.push(row);
        assert(rows@.map_values(|x: UsageRow| row_view(x)) =~= before.map_values(
            |x: UsageRow| row_view(x),
        ).push(row_view(row)));
    }
    let ghost expected = usage_rows(*breakdown, used, raw_total as nat);
    assert(rows@.map_values(|x: UsageRow| row_view(x)) =~= expected);
    SessionContext {
        used,
        total,
        system_prompt_tokens: system,
        tool_definitions_count: breakdown.tool_definitions_count,
        tool_definitions_tokens: tools,
        compaction_count: estimate.compaction_count,
        message_tokens: messages,
        free_tokens: if total > used {
            total - used
        } else {
            0
        },
        usage_pct: usage_pct(percent, used, total),
        auto_compact_threshold_percent: 85,
        usage_categories: rows,
    }
}

// ─── Reading Pi's session statistics ─────────────────────────────────────────

/// A JSON number read as a token count: as `u64` when it is one, else
/// rounded (negative values as 0).
pub open spec fn rounded_count(v: Option<Json>) -> Option<u64> {
    match v {
        Some(Json::Number(n)) => match n.as_u64 {
            Some(u) => Some(u),
            None => Some(
                match n.rounded {
                    Some(r) => r,
                    None => 0,
                },
            ),
        },
        _ => None,
    }
}

/// A count that is not zero.
pub open spec fn positive(n: Option<u64>) -> Option<u64> {
    match n {
        Some(t) => if t > 0 {
            Some(t)
        } else {
            None
        },
        None => None,
    }
}

/// The used context tokens that `get_session_stats` reports
/// (`contextUsage.tokens`; none after a compaction, when it is `null`).
pub open spec fn stats_tokens(data: Json) -> Option<u64> {
    match field(data, "contextUsage"@) {
        Some(u) => positive(rounded_count(field(u, "tokens"@))),
        None => None,
    }
}

/// The context window that `get_session_stats` reports.
pub open spec fn stats_window(data: Json) -> Option<u64> {
    match field(data, "contextUsage"@) {
        Some(u) => positive(
            rounded_count(
                match field(u, "contextWindow"@) {
                    Some(x) => Some(x),
                    None => field(u, "context_window"@),
                },
            ),
        ),
        None => None,
    }
}

/// The usage percentage that `get_session_stats` reports, rounded and
/// clamped to `0..=100`.
pub open spec fn stats_percent(data: Json) -> Option<u8> {
    match field(data, "contextUsage"@) {
        Some(u) => match field(u, "percent"@) {
            Some(Json::Number(n)) => Some(
                match n.rounded {
                    Some(r) => if r > 100 {
                        100u8
                    } else {
                        r as u8
                    },
                    None => 0u8,
                },
            ),
            _ => None,
        },
        None => None,
    }
}

fn rounded_count_exec(v: Option<&Json>) -> (r: Option<u64>)
    ensures
        r == rounded_count(opt_deref(v)),
{
    match v {
        Some(Json::Number(n)) => match n.as_u64 {
            Some(u) => Some(u),
            None => Some(
                match n.rounded {
                    Some(r) => r,
                    None => 0,
                },
            ),
        },
        _ => None,
    }
}

fn positive_exec(n: Option<u64>) -> (r: Option<u64>)
    ensures
        r == positive(n),
{
    match n {
        Some(t) => if t > 0 {
            Some(t)
        } else {
            None
        },
        None => None,
    }
}

/// Used context tokens from Pi's `get_session_stats` data.
pub fn context_tokens_from_stats(data: &Json) -> (r: Option<u64>)
    ensures
        r == stats_tokens(*data),
{
    match data.get("contextUsage") {
        Some(u) => positive_exec(rounded_count_exec(u.get("tokens"))),
        None => None,
    }
}

/// The context window from Pi's `get_session_stats` data.
pub fn context_window_from_stats(data: &Json) -> (r: Option<u64>)
    ensures
        r == stats_window(*data),
{
    match data.get("contextUsage") {
        Some(u) => {
            let w = match u.get("contextWindow") {
                Some(x) => Some(x),
                None => u.get("context_window"),
            };
            positive_exec(rounded_count_exec(w))
        },
        None => None,
    }
}

/// The usage percentage from Pi's `get_session_stats` data.
pub fn percent_from_stats(data: &Json) -> (r: Option<u8>)
    ensures
        r == stats_percent(*data),
{
    match data.get("contextUsage") {
        Some(u) => match u.get("percent") {
            Some(Json::Number(n)) => Some(
                match n.rounded {
                    Some(r) => if r > 100 {
                        100u8
                    } else {
                        r as u8
                    },
                    None => 0u8,
                },
            ),
            _ => None,
        },
        None => None,
    }
}

/// The context tokens of an assistant `usage` object, as Pi's
/// `calculateContextTokens` counts them: `totalTokens` when positive, else
/// the sum of input, output and cache counts; `None` when that is zero.
pub open spec fn usage_context_tokens(usage: Json) -> Option<u64> {
    let total = u64_of(
        match field(usage, "totalTokens"@) {
            Some(x) => Some(x),
            None => field(usage, "total_tokens"@),
        },
    );
    match positive(total) {
        Some(t) => Some(t),
        None => {
            let sum = usage_parts_sum(usage);
            if sum > 0 {
                Some(sum as u64)
            } else {
                None
            }
        },
    }
}

/// A count or zero.
pub open spec fn or_zero(n: Option<u64>) -> u64 {
    match n {
        Some(x) => x,
        None => 0,
    }
}

/// Input, output, cache-read and cache-write counts of a `usage` object,
/// added up.
pub open spec fn usage_parts_sum(usage: Json) -> int {
    or_zero(first_u64(usage, seq!["input"@])) + or_zero(first_u64(usage, seq!["output"@]))
        + or_zero(first_u64(usage, seq!["cacheRead"@, "cache_read"@]))
        + or_zero(first_u64(usage, seq!["cacheWrite"@, "cache_write"@]))
}

fn u64_1(value: &Json, a: &str) -> (r: Option<u64>)
    ensures
        r == first_u64(*value, seq![a@]),
{
    reveal_with_fuel(first_u64, 2);
    assert(seq![a@].drop_first() =~= Seq::<Seq<char>>::empty());
    crate::json::get_u64(value, a)
}

fn or_zero_exec(n: Option<u64>) -> (r: u64)
    ensures
        r == or_zero(n),
{
    match n {
        Some(x) => x,
        None => 0,
    }
}

/// Context tokens from an assistant message's `usage` (see
/// [`usage_context_tokens`]).
pub fn context_tokens_from_usage(usage: &Json) -> (r: Option<u64>)
    requires
        usage_parts_sum(*usage) <= u64::MAX,
    ensures
        r == usage_context_tokens(*usage),
{
    let total = match usage.get("totalTokens") {
        Some(x) => x.as_u64(),
        None => match usage.get("total_tokens") {
            Some(x) => x.as_u64(),
            None => None,
        },
    };
    match positive_exec(total) {
        Some(t) => return Some(t),
        None => {},
    }
    let sum = or_zero_exec(u64_1(usage, "input")) + or_zero_exec(u64_1(usage, "output"))
        + or_zero_exec(u64_2(usage, "cacheRead", "cache_read"))
        + or_zero_exec(u64_2(usage, "cacheWrite", "cache_write"));
    if sum > 0 {
        Some(sum)
    } else {
        None
    }
}

// ─── Message-window estimate ─────────────────────────────────────────────────

/// Token estimate of a value as pi-context counts it: strings by length,
/// arrays and objects by the sum over their items, `null` as nothing, other
/// values by the length of their JSON text.
pub open spec fn plain_tokens(v: Json) -> nat
    decreases v, 0nat,
{
    match v {
        Json::Null => 0,
        Json::Str(s) => estimate_spec(utf8_len(s@)),
        Json::Bool(b) => if b { estimate_spec(4) } else { estimate_spec(5) },
        Json::Number(n) => estimate_spec(utf8_len(n.text@)),
        Json::Array(items) => plain_items(items@, items@.len() as int),
        Json::Object(members) => plain_members(members@, members@.len() as int),
    }
}

/// Sum of the estimates of the first `n` items.
pub open spec fn plain_items(items: Seq<Json>, n: int) -> nat
    decreases items, n,
{
    if n <= 0 || n > items.len() {
        0
    } else {
        plain_items(items, n - 1) + plain_tokens(items[n - 1])
    }
}

/// Sum of the estimates of the values of the first `n` members.
pub open spec fn plain_members(members: Seq<(String, Json)>, n: int) -> nat
    decreases members, n,
{
    if n <= 0 || n > members.len() {
        0
    } else {
        plain_members(members, n - 1) + plain_tokens(members[n - 1].1)
    }
}

/// Token estimate of a value (see [`plain_tokens`]), capped at `u64::MAX`.
pub fn estimate_tokens_value(v: &Json) -> (r: u64)
    ensures
        r == sat(plain_tokens(*v) as int),
    decreases *v,
{
    match v {
        Json::Null => 0,
        Json::Str(s) => estimate_tokens_text(s.as_str()),
        // `true` and `false`: four and five bytes.
        Json::Bool(b) => if *b { 1 } else { 2 },
        Json::Number(n) => estimate_tokens_text(n.text.as_str()),
        Json::Array(items) => {
            let mut total: u64 = 0;
            let mut i: usize = 0;
            while i < items.len()
                invariant
                    i <= items.len(),
                    *v == Json::Array(*items),
                    total == sat(plain_items(items@, i as int) as int),
                decreases items.len() - i,
            {
                proof {
                    assert(decreases_to!(*v => (*v)->Array_0));
                    assert(decreases_to!(*items => items@));
                    assert(decreases_to!(items@ => items@[i as int]));
                }
                let t = estimate_tokens_value(&items[i]);
                total = total.saturating_add(t);
                i = i + 1;
            }
            total
        },
        Json::Object(members) => {
            let mut total: u64 = 0;
            let mut i: usize = 0;
            while i < members.len()
                invariant
                    i <= members.len(),
                    *v == Json::Object(*members),
                    total == sat(plain_members(members@, i as int) as int),
                decreases members.len() - i,
            {
                proof {
                    assert(decreases_to!(*v => (*v)->Object_0));
                    assert(decreases_to!(*members => members@));
                    assert(decreases_to!(members@ => members@[i as int]));
                    assert(decreases_to!(members@[i as int] => members@[i as int].1));
                }
                let t = estimate_tokens_value(&members[i].1);
                total = total.saturating_add(t);
                i = i + 1;
            }
            total
        },
    }
}

/// Token estimate of an optional text.
pub open spec fn text_estimate(s: Option<Seq<char>>) -> nat {
    match s {
        Some(t) => estimate_spec(utf8_len(t)),
        None => 0,
    }
}

/// A content part's kind, lowercased, without `-` and `_`.
pub open spec fn part_kind(part: Json) -> Seq<char> {
    lower(or_empty(first_str(part, seq!["type"@, "kind"@]))).filter(|c: char| c != '-' && c != '_')
}

/// `e` with `m` more message tokens and `t` more tool tokens (saturating).
pub open spec fn add_estimate(e: MessageTokenEstimate, m: nat, t: nat, compactions: nat) -> MessageTokenEstimate {
    MessageTokenEstimate {
        messages: sat(e.messages + m),
        tool_payload: sat(e.tool_payload + t),
        compaction_count: sat(e.compaction_count + compactions),
    }
}

/// The estimate after one more part of an assistant message: text and
/// thoughts count as messages, tool calls as tool payload, other parts by
/// their whole value as messages.
pub open spec fn part_step(e: MessageTokenEstimate, part: Json) -> MessageTokenEstimate {
    let kind = part_kind(part);
    if kind == "text"@ {
        add_estimate(e, text_estimate(first_str(part, seq!["text"@])), 0, 0)
    } else if kind == "thinking"@ || kind == "reasoning"@ {
        add_estimate(e, text_estimate(first_str(part, seq!["thinking"@, "reasoning"@, "text"@])), 0, 0)
    } else if kind == "toolcall"@ || kind == "tool_call"@ || kind == "tool"@ {
        add_estimate(e, 0, plain_tokens(part), 0)
    } else {
        add_estimate(e, plain_tokens(part), 0, 0)
    }
}

/// The estimate after the first `n` parts.
pub open spec fn parts_upto(e: MessageTokenEstimate, parts: Seq<Json>, n: int) -> MessageTokenEstimate
    decreases n,
{
    if n <= 0 || n > parts.len() {
        e
    } else {
        part_step(parts_upto(e, parts, n - 1), parts[n - 1])
    }
}

/// The value of `v`'s member `key`, or `v` itself.
pub open spec fn member_or_self(v: Json, key: Seq<char>) -> Json {
    match field(v, key) {
        Some(x) => x,
        None => v,
    }
}

/// The estimate after one more message, by its role: user content as
/// messages; assistant text parts as messages and tool calls as tool
/// payload; tool results and bash runs as tool payload; branch and
/// compaction summaries as messages (compactions counted); other roles not
/// at all.
pub open spec fn message_step(e: MessageTokenEstimate, item: Json) -> MessageTokenEstimate {
    let m = entry_message(item);
    let role = lower(or_empty(first_str(m, seq!["role"@, "type"@])));
    if role == "user"@ {
        add_estimate(e, plain_tokens(member_or_self(m, "content"@)), 0, 0)
    } else if role == "assistant"@ {
        match field(m, "content"@) {
            Some(Json::Array(parts)) => parts_upto(e, parts@, parts@.len() as int),
            Some(Json::Str(t)) => add_estimate(e, estimate_spec(utf8_len(t@)), 0, 0),
            _ => e,
        }
    } else if role == "toolresult"@ || role == "tool_result"@ {
        add_estimate(
            e,
            0,
            match field(m, "content"@) {
                Some(c) => plain_tokens(c),
                None => 0,
            },
            0,
        )
    } else if role == "bashexecution"@ || role == "bash_execution"@ {
        add_estimate(
            add_estimate(e, 0, text_estimate(first_str(m, seq!["command"@])), 0),
            0,
            text_estimate(first_str(m, seq!["output"@])),
            0,
        )
    } else if role == "branchsummary"@ || role == "branch_summary"@ || role == "compactionsummary"@
        || role == "compaction_summary"@ {
        add_estimate(
            e,
            text_estimate(first_str(m, seq!["summary"@, "text"@])),
            0,
            if has_infix(role, "compaction"@) { 1 } else { 0 },
        )
    } else {
        e
    }
}

/// The estimate after the first `n` messages.
pub open spec fn messages_upto(items: Seq<Json>, n: int) -> MessageTokenEstimate
    decreases n,
{
    if n <= 0 || n > items.len() {
        MessageTokenEstimate { messages: 0, tool_payload: 0, compaction_count: 0 }
    } else {
        message_step(messages_upto(items, n - 1), items[n - 1])
    }
}

/// The messages of a `get_messages` response: its `messages` array, else the
/// value itself when it is an array.
pub open spec fn message_list(v: Json) -> Option<Seq<Json>> {
    match field(v, "messages"@) {
        Some(Json::Array(x)) => Some(x@),
        _ => match v {
            Json::Array(x) => Some(x@),
            _ => None,
        },
    }
}

/// The message-window estimate of a `get_messages` response (nothing
/// without a message list).
pub open spec fn message_estimate_spec(v: Json) -> MessageTokenEstimate {
    match message_list(v) {
        Some(items) => messages_upto(items, items.len() as int),
        None => MessageTokenEstimate { messages: 0, tool_payload: 0, compaction_count: 0 },
    }
}

fn add_to_estimate(e: &mut MessageTokenEstimate, m: u64, t: u64, c: u64)
    ensures
        *final(e) == (MessageTokenEstimate {
            messages: sat(old(e).messages + m),
            tool_payload: sat(old(e).tool_payload + t),
            compaction_count: sat(old(e).compaction_count + c),
        }),
{
    e.messages = e.messages.saturating_add(m);
    e.tool_payload = e.tool_payload.saturating_add(t);
    e.compaction_count = e.compaction_count.saturating_add(c);
}

fn text_estimate_exec(s: Option<&str>) -> (r: u64)
    ensures
        r == text_estimate(crate::json::opt_str_view(s)),
{
    match s {
        Some(t) => estimate_tokens_text(t),
        None => 0,
    }
}

fn part_kind_exec(part: &Json) -> (r: String)
    ensures
        r@ == part_kind(*part),
{
    let k = to_ascii_lowercase(str_or_empty(str2(part, "type", "kind")).as_str());
    let v = crate::text::chars_of(k.as_str());
    let mut out = String::new();
    let mut i: usize = 0;
    while i < v.len()
        invariant
            i <= v.len(),
            v@ == k@,
            out@ == v@.take(i as int).filter(|c: char| c != '-' && c != '_'),
        decreases v.len() - i,
    {
        let c = v[i];
        proof {
            assert(v@.take(i + 1).drop_last() =~= v@.take(i as int));
            reveal(Seq::filter);
        }
        if c != '-' && c != '_' {
            crate::text::push_char(&mut out, c);
        }
        i = i + 1;
    }
    assert(v@.take(v.len() as int) =~= v@);
    out
}

fn apply_part(e: &mut MessageTokenEstimate, part: &Json)
    ensures
        *final(e) == part_step(*old(e), *part),
{
    let kind = part_kind_exec(part);
    let k = kind.as_str();
    if str_eq(k, "text") {
        add_to_estimate(e, text_estimate_exec(str1(part, "text")), 0, 0);
    } else if str_eq(k, "thinking") || str_eq(k, "reasoning") {
        add_to_estimate(e, text_estimate_exec(crate::json::str3(part, "thinking", "reasoning", "text")), 0, 0);
    } else if str_eq(k, "toolcall") || str_eq(k, "tool_call") || str_eq(k, "tool") {
        add_to_estimate(e, 0, estimate_tokens_value(part), 0);
    } else {
        add_to_estimate(e, estimate_tokens_value(part), 0, 0);
    }
}

fn apply_message(e: &mut MessageTokenEstimate, item: &Json)
    ensures
        *final(e) == message_step(*old(e), *item),
{
    let m = match item.get("message") {
        Some(x) => x,
        None => item,
    };
    let role = to_ascii_lowercase(str_or_empty(str2(m, "role", "type")).as_str());
    let r = role.as_str();
    if str_eq(r, "user") {
        let content = match m.get("content") {
            Some(c) => c,
            None => m,
        };
        add_to_estimate(e, estimate_tokens_value(content), 0, 0);
    } else if str_eq(r, "assistant") {
        match m.get("content") {
            Some(Json::Array(parts)) => {
                let ghost start = *e;
                let mut i: usize = 0;
                while i < parts.len()
                    invariant
                        i <= parts.len(),
                        *e == parts_upto(start, parts@, i as int),
                    decreases parts.len() - i,
                {
                    apply_part(e, &parts[i]);
                    i = i + 1;
                }
            },
            Some(Json::Str(t)) => {
                add_to_estimate(e, estimate_tokens_text(t.as_str()), 0, 0);
            },
            _ => {},
        }
    } else if str_eq(r, "toolresult") || str_eq(r, "tool_result") {
        let t = match m.get("content") {
            Some(c) => estimate_tokens_value(c),
            None => 0,
        };
        add_to_estimate(e, 0, t, 0);
    } else if str_eq(r, "bashexecution") || str_eq(r, "bash_execution") {
        add_to_estimate(e, 0, text_estimate_exec(str1(m, "command")), 0);
        add_to_estimate(e, 0, text_estimate_exec(str1(m, "output")), 0);
    } else if str_eq(r, "branchsummary") || str_eq(r, "branch_summary") || str_eq(r, "compactionsummary")
        || str_eq(r, "compaction_summary") {
        let c: u64 = if contains_text(r, "compaction") { 1 } else { 0 };
        add_to_estimate(e, text_estimate_exec(str2(m, "summary", "text")), 0, c);
    }
}

/// The message-window estimate of a `get_messages` response (see
/// [`message_estimate_spec`]).
pub fn estimate_message_tokens(messages: &Json) -> (r: MessageTokenEstimate)
    ensures
        r == message_estimate_spec(*messages),
{
    let mut e = MessageTokenEstimate { messages: 0, tool_payload: 0, compaction_count: 0 };
    let items = match messages.get("messages") {
        Some(Json::Array(x)) => x,
        _ => match messages {
            Json::Array(x) => x,
            _ => return e,
        },
    };
    let mut i: usize = 0;
    while i < items.len()
        invariant
            i <= items.len(),
            e == messages_upto(items@, i as int),
        decreases items.len() - i,
    {
        apply_message(&mut e, &items[i]);
        i = i + 1;
    }
    e
}

/// The message that a `get_entries` entry contributes to the estimate:
/// message entries (and entries without a kind) their message; compaction
/// and branch entries themselves, for their summary text; others none.
pub open spec fn entry_as_message(entry: Json) -> Option<Json> {
    let kind = lower(or_empty(first_str(entry, seq!["type"@, "kind"@])));
    if kind == "message"@ || kind.len() == 0 {
        Some(entry_message(entry))
    } else if has_infix(kind, "compaction"@) || has_infix(kind, "branch"@) {
        Some(entry)
    } else {
        None
    }
}

/// The messages that the first `n` entries contribute, in order.
pub open spec fn entries_messages(items: Seq<Json>, n: int) -> Seq<Json>
    decreases n,
{
    if n <= 0 || n > items.len() {
        Seq::empty()
    } else {
        match entry_as_message(items[n - 1]) {
            Some(m) => entries_messages(items, n - 1).push(m),
            None => entries_messages(items, n - 1),
        }
    }
}

/// The message-window estimate of a `get_entries` payload: the estimate of
/// the messages its entries contribute.
pub open spec fn entries_estimate_spec(entries: Json) -> MessageTokenEstimate {
    let items = payload_entries(entries);
    let msgs = entries_messages(items, items.len() as int);
    messages_upto(msgs, msgs.len() as int)
}

proof fn lemma_messages_prefix(s: Seq<Json>, x: Json, n: int)
    requires
        0 <= n <= s.len(),
    ensures
        messages_upto(s.push(x), n) == messages_upto(s, n),
    decreases n,
{
    if n > 0 {
        lemma_messages_prefix(s, x, n - 1);
        assert(s.push(x)[n - 1] == s[n - 1]);
    }
}

/// The message-window estimate of a `get_entries` payload (see
/// [`entries_estimate_spec`]).
pub fn estimate_entries_tokens(entries: &Json) -> (r: MessageTokenEstimate)
    ensures
        r == entries_estimate_spec(*entries),
{
    let empty: Vec<Json> = Vec::new();
    let items: &Vec<Json> = match entries.get("entries") {
        Some(Json::Array(v)) => v,
        _ => match entries {
            Json::Array(v) => v,
            _ => &empty,
        },
    };
    assert(items@ == payload_entries(*entries));
    let mut e = MessageTokenEstimate { messages: 0, tool_payload: 0, compaction_count: 0 };
    let mut i: usize = 0;
    while i < items.len()
        invariant
            i <= items.len(),
            e == messages_upto(entries_messages(items@, i as int), entries_messages(items@, i as int).len() as int),
        decreases items.len() - i,
    {
        let entry = &items[i];
        let kind = to_ascii_lowercase(str_or_empty(str2(entry, "type", "kind")).as_str());
        let k = kind.as_str();
        let ghost prev = entries_messages(items@, i as int);
        if str_eq(k, "message") || k.unicode_len() == 0 {
            let m = match entry.get("message") {
                Some(x) => x,
                None => entry,
            };
            proof {
                let next = entries_messages(items@, i + 1);
                assert(next == prev.push(*m));
                lemma_messages_prefix(prev, *m, prev.len() as int);
            }
            apply_message(&mut e, m);
        } else if contains_text(k, "compaction") || contains_text(k, "branch") {
            proof {
                let next = entries_messages(items@, i + 1);
                assert(next == prev.push(*entry));
                lemma_messages_prefix(prev, *entry, prev.len() as int);
            }
            apply_message(&mut e, entry);
        }
        i = i + 1;
    }
    e
}

/// One measured context file as the breakdown file lists it.
pub open spec fn context_file_spec(item: Json) -> (Seq<char>, u64) {
    (or_empty(first_str(item, seq!["path"@])), or_zero(first_u64(item, seq!["tokensRaw"@, "tokens_raw"@])))
}

/// `(path, tokens)` of the measured context files.
pub open spec fn context_file_views(files: Seq<ContextFileRaw>) -> Seq<(Seq<char>, u64)> {
    files.map_values(|f: ContextFileRaw| (f.path@, f.tokens_raw))
}

/// Read the JSON file that the context breakdown command writes: counts
/// default to 0, and the context files are those of `contextFiles`.
pub fn parse_context_breakdown(value: &Json) -> (r: ContextBreakdownRaw)
    ensures
        r.system_prompt_tokens_raw == or_zero(first_u64(*value, seq!["systemPromptTokensRaw"@, "system_prompt_tokens_raw"@])),
        r.tool_definitions_count == or_zero(first_u64(*value, seq!["toolDefinitionsCount"@, "tool_definitions_count"@])),
        r.tool_definitions_tokens_raw == or_zero(
            first_u64(*value, seq!["toolDefinitionsTokensRaw"@, "tool_definitions_tokens_raw"@]),
        ),
        r.append_tokens_raw == or_zero(first_u64(*value, seq!["appendTokensRaw"@, "append_tokens_raw"@])),
        r.skills_count == or_zero(first_u64(*value, seq!["skillsCount"@, "skills_count"@])),
        r.skills_tokens_raw == or_zero(first_u64(*value, seq!["skillsTokensRaw"@, "skills_tokens_raw"@])),
        context_file_views(r.context_files@) == match field(*value, "contextFiles"@) {
            Some(Json::Array(items)) => items@.map_values(|i: Json| context_file_spec(i)),
            _ => Seq::empty(),
        },
{
    let mut files: Vec<ContextFileRaw> = Vec::new();
    match value.get("contextFiles") {
        Some(Json::Array(items)) => {
            let mut i: usize = 0;
            while i < items.len()
                invariant
                    i <= items.len(),
                    context_file_views(files@) == items@.take(i as int).map_values(|i: Json| context_file_spec(i)),
                decreases items.len() - i,
            {
                let f = ContextFileRaw {
                    path: str_or_empty(str1(&items[i], "path")),
                    tokens_raw: or_zero_exec(u64_2(&items[i], "tokensRaw", "tokens_raw")),
                };
                let ghost before = files@;
                files.push(f);
                assert(context_file_views(files@) =~= context_file_views(before).push((f.path@, f.tokens_raw)));
                assert(items@.take(i + 1).map_values(|i: Json| context_file_spec(i)) =~= items@.take(i as int).map_values(
                    |i: Json| context_file_spec(i),
                ).push(context_file_spec(items@[i as int])));
                assert(context_file_views(files@) =~= items@.take(i + 1).map_values(|i: Json| context_file_spec(i)));
                i = i + 1;
            }
            assert(items@.take(items.len() as int) =~= items@);
        },
        _ => {
            assert(context_file_views(files@) =~= Seq::<(Seq<char>, u64)>::empty());
        },
    }
    ContextBreakdownRaw {
        system_prompt_tokens_raw: or_zero_exec(u64_2(value, "systemPromptTokensRaw", "system_prompt_tokens_raw")),
        tool_definitions_count: or_zero_exec(u64_2(value, "toolDefinitionsCount", "tool_definitions_count")),
        tool_definitions_tokens_raw: or_zero_exec(
            u64_2(value, "toolDefinitionsTokensRaw", "tool_definitions_tokens_raw"),
        ),
        append_tokens_raw: or_zero_exec(u64_2(value, "appendTokensRaw", "append_tokens_raw")),
        context_files: files,
        skills_count: or_zero_exec(u64_2(value, "skillsCount", "skills_count")),
        skills_tokens_raw: or_zero_exec(u64_2(value, "skillsTokensRaw", "skills_tokens_raw")),
    }
}

// ─── The session-info panel ──────────────────────────────────────────────────

/// What the pager's session-info panel shows for a Pi session.
#[derive(Debug, Clone)]
pub struct SessionInfo {
    pub session_id: String,
    pub cwd: String,
    /// The agent the panel names: always `pi`.
    pub agent_name: String,
    /// Whether the pager shows the model fingerprint: never for Pi.
    pub show_model_fingerprint: bool,
    /// The model's id and display name (its label, else its id).
    pub model: Option<String>,
    pub model_display_name: Option<String>,
    pub turns: u64,
    pub turn_index: u64,
    /// The context panel's turn count (the same as `turns`).
    pub turn_count: u64,
    pub tool_call_count: u64,
    pub message_count: u64,
    pub context: SessionContext,
}

/// The used tokens of the panel: Pi's statistic, else the cached count,
/// else 0.
pub open spec fn info_used(stats: Json, cached_tokens: Option<u64>) -> u64 {
    match stats_tokens(stats) {
        Some(t) => t,
        None => or_zero(cached_tokens),
    }
}

/// The window of the panel: Pi's statistic, else the model's window, else 0.
pub open spec fn info_total(stats: Json, model_window: Option<u64>) -> u64 {
    match stats_window(stats) {
        Some(w) => w,
        None => or_zero(model_window),
    }
}

/// The message estimate of the panel (nothing without messages).
pub open spec fn info_estimate(messages: Option<Json>) -> MessageTokenEstimate {
    match messages {
        Some(m) => message_estimate_spec(m),
        None => MessageTokenEstimate { messages: 0, tool_payload: 0, compaction_count: 0 },
    }
}

/// The raw bar parts, with zero system and tool parts without a breakdown.
pub open spec fn info_parts(breakdown: Option<ContextBreakdownRaw>, e: MessageTokenEstimate) -> Seq<u64> {
    match breakdown {
        Some(b) => raw_parts(b, e),
        None => seq![0u64, 0u64, e.messages, e.tool_payload],
    }
}

/// The model's display name: its label, else its id.
pub open spec fn display_name(m: crate::model::ModelView) -> Seq<char> {
    if m.label.len() == 0 {
        m.id
    } else {
        m.label
    }
}

/// The breakdown behind an optional reference.
pub open spec fn opt_breakdown(b: Option<&ContextBreakdownRaw>) -> Option<ContextBreakdownRaw> {
    match b {
        Some(x) => Some(*x),
        None => None,
    }
}

/// The optional model views.
pub open spec fn opt_model(m: Option<&PiModel>) -> Option<crate::model::ModelView> {
    match m {
        Some(x) => Some(x@),
        None => None,
    }
}

/// The session-info panel of a Pi session from its `get_session_stats` data,
/// its messages (for the message estimate), its model, the last known used
/// token count and the system / tool breakdown.
pub fn build_session_info_response(
    stats: &Json,
    messages: Option<&Json>,
    session_id: &str,
    cwd: &str,
    model: Option<&PiModel>,
    cached_tokens: Option<u64>,
    breakdown: Option<&ContextBreakdownRaw>,
) -> (r: SessionInfo)
    requires
        sum_seq(info_parts(opt_breakdown(breakdown), info_estimate(opt_deref(messages)))) <= u64::MAX,
    ensures
        r.session_id@ == session_id@,
        r.cwd@ == cwd@,
        r.agent_name@ == "pi"@,
        !r.show_model_fingerprint,
        r.turn_count == r.turns,
        r.context.auto_compact_threshold_percent == 85,
        r.turns == or_zero(first_u64(*stats, seq!["userMessages"@, "user_messages"@])),
        r.turn_index == (if r.turns > 0 { r.turns - 1 } else { 0 }),
        r.tool_call_count == or_zero(first_u64(*stats, seq!["toolCalls"@, "tool_calls"@])),
        r.message_count == or_zero(first_u64(*stats, seq!["totalMessages"@, "total_messages"@])),
        crate::model::opt_string_view(r.model) == match opt_model(model) {
            Some(m) => Some(m.id),
            None => None,
        },
        crate::model::opt_string_view(r.model_display_name) == match opt_model(model) {
            Some(m) => Some(display_name(m)),
            None => None,
        },
        r.context.used == info_used(*stats, cached_tokens),
        r.context.total == info_total(
            *stats,
            match opt_model(model) {
                Some(m) => m.context_window,
                None => None,
            },
        ),
        (r.context.system_prompt_tokens, r.context.tool_definitions_tokens, r.context.message_tokens) == bar_buckets(
            r.context.used,
            info_parts(opt_breakdown(breakdown), info_estimate(opt_deref(messages))),
        ),
        r.context.tool_definitions_count == match breakdown {
            Some(b) => b.tool_definitions_count,
            None => 0,
        },
        r.context.compaction_count == info_estimate(opt_deref(messages)).compaction_count,
        r.context.free_tokens == (if r.context.total > r.context.used { r.context.total - r.context.used } else { 0 }),
        r.context.usage_pct == usage_pct_spec(stats_percent(*stats), r.context.used, r.context.total),
        r.context.usage_categories@.map_values(|x: UsageRow| row_view(x)) == match breakdown {
            Some(b) => usage_rows(
                *b,
                r.context.used,
                sum_seq(info_parts(opt_breakdown(breakdown), info_estimate(opt_deref(messages)))),
            ),
            None => Seq::empty(),
        },
{
    let used = match context_tokens_from_stats(stats) {
        Some(t) => t,
        None => or_zero_exec(cached_tokens),
    };
    let model_window = match model {
        Some(m) => m.context_window,
        None => None,
    };
    let total = match context_window_from_stats(stats) {
        Some(w) => w,
        None => or_zero_exec(model_window),
    };
    let estimate = match messages {
        Some(m) => estimate_message_tokens(m),
        None => MessageTokenEstimate { messages: 0, tool_payload: 0, compaction_count: 0 },
    };
    let empty = ContextBreakdownRaw::empty();
    let b = match breakdown {
        Some(b) => b,
        None => &empty,
    };
    proof {
        if breakdown is None {
            assert(raw_parts(*b, estimate) =~= info_parts(opt_breakdown(breakdown), estimate));
            assert(b.context_files@ =~= Seq::<ContextFileRaw>::empty());
            assert(file_rows(b.context_files@, used, sum_seq(raw_parts(*b, estimate))) =~= Seq::empty());
            assert(usage_rows(*b, used, sum_seq(raw_parts(*b, estimate))) =~= Seq::empty());
        }
    }
    let context = session_context(used, total, estimate, b, percent_from_stats(stats));
    let turns = or_zero_exec(u64_2(stats, "userMessages", "user_messages"));
    SessionInfo {
        session_id: to_owned(session_id),
        cwd: to_owned(cwd),
        agent_name: String::from_str("pi"),
        show_model_fingerprint: false,
        model: match model {
            Some(m) => Some(m.id.clone()),
            None => None,
        },
        model_display_name: match model {
            Some(m) => Some(
                if m.label.as_str().unicode_len() == 0 {
                    m.id.clone()
                } else {
                    m.label.clone()
                },
            ),
            None => None,
        },
        turns,
        turn_index: if turns > 0 { turns - 1 } else { 0 },
        turn_count: turns,
        tool_call_count: or_zero_exec(u64_2(stats, "toolCalls", "tool_calls")),
        message_count: or_zero_exec(u64_2(stats, "totalMessages", "total_messages")),
        context,
    }
}


// ─── The session-info panel on the wire ──────────────────────────────────────

/// A usage row as JSON: `label`, `tokens`, and `detail` when there is one.
pub open spec fn row_json(r: UsageRow) -> JsonModel {
    JsonModel::Object(
        seq![("label"@, JsonModel::Str(r.label@)), ("tokens"@, crate::adapter::count_model(r.tokens))] + match r.detail {
            Some(d) => seq![("detail"@, JsonModel::Str(d@))],
            None => Seq::empty(),
        },
    )
}

/// The context panel as JSON, in the pager's member order.
pub open spec fn context_json(i: SessionInfo) -> JsonModel {
    let c = i.context;
    JsonModel::Object(
        seq![
            ("used"@, crate::adapter::count_model(c.used)),
            ("total"@, crate::adapter::count_model(c.total)),
            ("systemPromptTokens"@, crate::adapter::count_model(c.system_prompt_tokens)),
            ("toolDefinitionsCount"@, crate::adapter::count_model(c.tool_definitions_count)),
            ("toolDefinitionsTokens"@, crate::adapter::count_model(c.tool_definitions_tokens)),
            ("compactionCount"@, crate::adapter::count_model(c.compaction_count)),
            ("turnCount"@, crate::adapter::count_model(i.turn_count)),
            ("toolCallCount"@, crate::adapter::count_model(i.tool_call_count)),
            ("messageCount"@, crate::adapter::count_model(i.message_count)),
            ("messageTokens"@, crate::adapter::count_model(c.message_tokens)),
            ("freeTokens"@, crate::adapter::count_model(c.free_tokens)),
            ("usagePct"@, crate::adapter::count_model(c.usage_pct as u64)),
            ("autoCompactThresholdPercent"@, crate::adapter::count_model(c.auto_compact_threshold_percent as u64)),
            ("usageCategories"@, JsonModel::Array(c.usage_categories@.map_values(|r: UsageRow| row_json(r)))),
        ],
    )
}

/// The session-info response as JSON (the pager's `SessionInfoResponse`):
/// `model` and `modelDisplayName` are left out, not `null`, without a model.
pub open spec fn session_info_json_spec(i: SessionInfo) -> JsonModel {
    JsonModel::Object(
        seq![
            ("sessionId"@, JsonModel::Str(i.session_id@)),
            ("cwd"@, JsonModel::Str(i.cwd@)),
            ("agentName"@, JsonModel::Str(i.agent_name@)),
            ("showModelFingerprint"@, JsonModel::Bool(i.show_model_fingerprint)),
            ("turns"@, crate::adapter::count_model(i.turns)),
            ("turnIndex"@, crate::adapter::count_model(i.turn_index)),
            ("context"@, context_json(i)),
        ] + match i.model {
            Some(m) => seq![("model"@, JsonModel::Str(m@))],
            None => Seq::empty(),
        } + match i.model_display_name {
            Some(m) => seq![("modelDisplayName"@, JsonModel::Str(m@))],
            None => Seq::empty(),
        },
    )
}

fn row_to_json(r: &UsageRow) -> (j: Json)
    ensures
        j@ == row_json(*r),
{
    let mut m: Vec<(String, Json)> = Vec::new();
    m.push(crate::adapter::member("label", crate::json::text_value(r.label.as_str())));
    m.push(crate::adapter::member("tokens", crate::adapter::count_value(r.tokens)));
    match &r.detail {
        Some(d) => m.push(crate::adapter::member("detail", crate::json::text_value(d.as_str()))),
        None => {},
    }
    let ghost ms = m@;
    let j = crate::json::object(m);
    proof {
        assert(crate::json::member_models(ms) =~= row_json(*r)->Object_0);
    }
    j
}

fn context_to_json(i: &SessionInfo) -> (j: Json)
    ensures
        j@ == context_json(*i),
{
    let c = &i.context;
    let mut rows: Vec<Json> = Vec::new();
    let mut k: usize = 0;
    while k < c.usage_categories.len()
        invariant
            k <= c.usage_categories.len(),
            rows@.len() == k,
            forall|j: int| 0 <= j < k ==> json_model(#[trigger] rows@[j]) == row_json(c.usage_categories@[j]),
        decreases c.usage_categories.len() - k,
    {
        rows.push(row_to_json(&c.usage_categories[k]));
        k = k + 1;
    }
    let ghost rs = rows@;
    proof {
        crate::json::lemma_items_model_all(rs, c.usage_categories@.map_values(|r: UsageRow| row_json(r)));
    }
    let categories = Json::Array(rows);
    let mut m: Vec<(String, Json)> = Vec::new();
    m.push(crate::adapter::member("used", crate::adapter::count_value(c.used)));
    m.push(crate::adapter::member("total", crate::adapter::count_value(c.total)));
    m.push(crate::adapter::member("systemPromptTokens", crate::adapter::count_value(c.system_prompt_tokens)));
    m.push(crate::adapter::member("toolDefinitionsCount", crate::adapter::count_value(c.tool_definitions_count)));
    m.push(crate::adapter::member("toolDefinitionsTokens", crate::adapter::count_value(c.tool_definitions_tokens)));
    m.push(crate::adapter::member("compactionCount", crate::adapter::count_value(c.compaction_count)));
    m.push(crate::adapter::member("turnCount", crate::adapter::count_value(i.turn_count)));
    m.push(crate::adapter::member("toolCallCount", crate::adapter::count_value(i.tool_call_count)));
    m.push(crate::adapter::member("messageCount", crate::adapter::count_value(i.message_count)));
    m.push(crate::adapter::member("messageTokens", crate::adapter::count_value(c.message_tokens)));
    m.push(crate::adapter::member("freeTokens", crate::adapter::count_value(c.free_tokens)));
    m.push(crate::adapter::member("usagePct", crate::adapter::count_value(c.usage_pct as u64)));
    m.push(
        crate::adapter::member("autoCompactThresholdPercent", crate::adapter::count_value(c.auto_compact_threshold_percent as u64)),
    );
    m.push(crate::adapter::member("usageCategories", categories));
    let ghost ms = m@;
    let j = crate::json::object(m);
    proof {
        assert(crate::json::member_models(ms) =~= context_json(*i)->Object_0);
    }
    j
}

/// The session-info response as JSON (see [`session_info_json_spec`]).
pub fn session_info_json(info: &SessionInfo) -> (j: Json)
    ensures
        j@ == session_info_json_spec(*info),
{
    let mut m: Vec<(String, Json)> = Vec::new();
    m.push(crate::adapter::member("sessionId", crate::json::text_value(info.session_id.as_str())));
    m.push(crate::adapter::member("cwd", crate::json::text_value(info.cwd.as_str())));
    m.push(crate::adapter::member("agentName", crate::json::text_value(info.agent_name.as_str())));
    m.push(crate::adapter::member("showModelFingerprint", Json::Bool(info.show_model_fingerprint)));
    m.push(crate::adapter::member("turns", crate::adapter::count_value(info.turns)));
    m.push(crate::adapter::member("turnIndex", crate::adapter::count_value(info.turn_index)));
    m.push(crate::adapter::member("context", context_to_json(info)));
    match &info.model {
        Some(x) => m.push(crate::adapter::member("model", crate::json::text_value(x.as_str()))),
        None => {},
    }
    match &info.model_display_name {
        Some(x) => m.push(crate::adapter::member("modelDisplayName", crate::json::text_value(x.as_str()))),
        None => {},
    }
    let ghost ms = m@;
    let j = crate::json::object(m);
    proof {
        assert(crate::json::member_models(ms) =~= session_info_json_spec(*info)->Object_0);
    }
    j
}

} // verus!
