//! Pi Session Manager (PSM) catalog helpers: the full-text query sent to
//! PSM's FTS5 index, and the preview messages read back from it.
use crate::text::{
    chars_of, is_ascii_digit, join, join_strings, push_char, push_str, split_whitespace, split_ws, string_of,
    string_of_range, to_owned, trim, trim_str,
};
use crate::json::opt_str_view;
use crate::theme::{byte_len, utf8_width};
use vstd::prelude::*;

verus! {

/// Whether Unicode classes `c` as alphabetic or numeric
/// (`char::is_alphanumeric`).
pub uninterp spec fn unicode_alphanumeric(c: char) -> bool;

/// `char::is_alphanumeric`.  For ASCII characters this is exactly the
/// letters and digits; beyond ASCII it is Unicode's Alphabetic and Numeric
/// properties, which are only named here.
#[verifier::external_body]
fn is_alphanumeric(c: char) -> (r: bool)
    ensures
        r == unicode_alphanumeric(c),
        (c as u32) < 128 ==> (r == (is_ascii_digit(c) || ('a' <= c && c <= 'z') || ('A' <= c
            && c <= 'Z'))),
{
    c.is_alphanumeric()
}

/// Whether a search term can go to FTS5 bare: letters, digits, `_` and `-`.
pub open spec fn bare_term(t: Seq<char>) -> bool {
    forall|i: int| 0 <= i < t.len() ==> unicode_alphanumeric(#[trigger] t[i]) || t[i] == '_' || t[i] == '-'
}

/// `t` with each `"` doubled (FTS5 string escaping).
pub open spec fn escape_quotes(t: Seq<char>) -> Seq<char>
    decreases t.len(),
{
    if t.len() == 0 {
        Seq::empty()
    } else {
        escape_quotes(t.drop_last()) + if t.last() == '"' {
            seq!['"', '"']
        } else {
            seq![t.last()]
        }
    }
}

/// One FTS5 term: bare when safe, else a quoted string.
pub open spec fn fts_term(t: Seq<char>) -> Seq<char> {
    if bare_term(t) {
        t
    } else {
        seq!['"'] + escape_quotes(t) + seq!['"']
    }
}

/// The FTS5 query for `input`: its whitespace-separated terms joined with
/// `OR` (PSM's "any" match mode).
pub open spec fn fts_query_spec(input: Seq<char>) -> Seq<char> {
    join(split_ws(input).map_values(|t: Seq<char>| fts_term(t)), " OR "@)
}

fn fts_term_exec(t: &str) -> (r: String)
    ensures
        r@ == fts_term(t@),
{
    let v = chars_of(t);
    let mut bare = true;
    let mut i: usize = 0;
    while i < v.len()
        invariant
            i <= v.len(),
            v@ == t@,
            bare == forall|j: int| 0 <= j < i ==> unicode_alphanumeric(#[trigger] v@[j]) || v@[j]
                == '_' || v@[j] == '-',
        decreases v.len() - i,
    {
        let c = v[i];
        let ok = is_alphanumeric(c) || c == '_' || c == '-';
        if !ok {
            bare = false;
        }
        i = i + 1;
    }
    if bare {
        return to_owned(t);
    }
    let mut out = String::new();
    push_char(&mut out, '"');
    let mut k: usize = 0;
    while k < v.len()
        invariant
            k <= v.len(),
            v@ == t@,
            out@ == seq!['"'] + escape_quotes(v@.take(k as int)),
        decreases v.len() - k,
    {
        assert(v@.take(k + 1).drop_last() =~= v@.take(k as int));
        let c = v[k];
        if c == '"' {
            push_char(&mut out, '"');
            push_char(&mut out, '"');
        } else {
            push_char(&mut out, c);
        }
        assert(out@ =~= seq!['"'] + escape_quotes(v@.take(k + 1)));
        k = k + 1;
    }
    assert(v@.take(v.len() as int) =~= v@);
    push_char(&mut out, '"');
    out
}

/// The FTS5 query that finds messages matching any term of `input`.
pub fn build_fts_query_any(input: &str) -> (r: String)
    ensures
        r@ == fts_query_spec(input@),
{
    let words = split_whitespace(input);
    let ghost wv = words.deep_view();
    let mut terms: Vec<String> = Vec::new();
    let mut i: usize = 0;
    while i < words.len()
        invariant
            i <= words.len(),
            wv == words.deep_view(),
            terms@.len() == i,
            terms.deep_view() == wv.take(i as int).map_values(|t: Seq<char>| fts_term(t)),
        decreases words.len() - i,
    {
        let term = fts_term_exec(words[i].as_str());
        let ghost before = terms@;
        terms.push(term);
        proof {
            assert(wv[i as int] == words@[i as int]@);
            assert forall|j: int| 0 <= j <= i implies #[trigger] terms.deep_view()[j]
                == wv.take(i + 1).map_values(|t: Seq<char>| fts_term(t))[j] by {
                if j < i {
                    assert(terms@[j] == before[j]);
                    assert(before.map_values(|s: String| s@)[j] == wv.take(i as int).map_values(
                        |t: Seq<char>| fts_term(t),
                    )[j]);
                }
            }
            assert(terms.deep_view() =~= wv.take(i + 1).map_values(|t: Seq<char>| fts_term(t)));
        }
        i = i + 1;
    }
    assert(wv.take(words.len() as int) =~= wv);
    join_strings(&terms, " OR ")
}

/// One message of a session preview.
#[derive(Debug, Clone)]
pub struct PsmPreviewMessage {
    pub role: String,
    pub content: String,
}

/// The preview of `(role, content)` rows: contents trimmed, empty ones left
/// out.
pub open spec fn preview_spec(rows: Seq<(Seq<char>, Seq<char>)>) -> Seq<(Seq<char>, Seq<char>)>
    decreases rows.len(),
{
    if rows.len() == 0 {
        Seq::empty()
    } else {
        let prev = preview_spec(rows.drop_last());
        let r = rows.last();
        if trim(r.1).len() == 0 {
            prev
        } else {
            prev.push((r.0, trim(r.1)))
        }
    }
}

/// The preview of the message rows PSM returned for a session, oldest first.
pub fn preview_messages(rows: Vec<(String, String)>) -> (r: Vec<PsmPreviewMessage>)
    ensures
        r@.map_values(|m: PsmPreviewMessage| (m.role@, m.content@)) == preview_spec(
            rows@.map_values(|p: (String, String)| (p.0@, p.1@)),
        ),
{
    let ghost rv = rows@.map_values(|p: (String, String)| (p.0@, p.1@));
    let mut out: Vec<PsmPreviewMessage> = Vec::new();
    let mut i: usize = 0;
    assert(rv.take(0) =~= Seq::<(Seq<char>, Seq<char>)>::empty());
    assert(out@.map_values(|m: PsmPreviewMessage| (m.role@, m.content@)) =~= Seq::<(Seq<char>, Seq<char>)>::empty());
    while i < rows.len()
        invariant
            i <= rows.len(),
            rv == rows@.map_values(|p: (String, String)| (p.0@, p.1@)),
            out@.map_values(|m: PsmPreviewMessage| (m.role@, m.content@)) == preview_spec(
                rv.take(i as int),
            ),
        decreases rows.len() - i,
    {
        assert(rv.take(i + 1).drop_last() =~= rv.take(i as int));
        assert(rv[i as int] == (rows@[i as int].0@, rows@[i as int].1@));
        let body = trim_str(rows[i].1.as_str());
        if !body.as_str().is_empty() {
            let m = PsmPreviewMessage { role: rows[i].0.clone(), content: body };
            let ghost before = out@;
            out.push(m);
            assert(out@.map_values(|m: PsmPreviewMessage| (m.role@, m.content@)) =~= before.map_values(
                |m: PsmPreviewMessage| (m.role@, m.content@),
            ).push((m.role@, m.content@)));
        }
        i = i + 1;
    }
    assert(rv.take(rows.len() as int) =~= rv);
    out
}


// ─── Search snippets ─────────────────────────────────────────────────────────

/// `s` with each newline turned into a space.
pub open spec fn flatten_newlines(s: Seq<char>) -> Seq<char> {
    s.map_values(|c: char| if c == '\n' { ' ' } else { c })
}

/// The Unicode lower case of a text, as `str::to_lowercase` computes it.
pub uninterp spec fn unicode_lowercase(s: Seq<char>) -> Seq<char>;

/// `str::to_lowercase`: Unicode lower-casing, which is only named here.
#[verifier::external_body]
fn to_lowercase(s: &str) -> (r: String)
    ensures
        r@ == unicode_lowercase(s@),
{
    s.to_lowercase()
}

/// The first character index at or after `i` where `t` occurs in `s`.
pub open spec fn find_from(s: Seq<char>, t: Seq<char>, i: int) -> Option<int>
    decreases s.len() + 1 - i,
{
    if i < 0 || i + t.len() > s.len() {
        None
    } else if s.subrange(i, i + t.len()) == t {
        Some(i)
    } else {
        find_from(s, t, i + 1)
    }
}

/// The number of leading characters of `s`, counted from `k` on, whose
/// UTF-8 bytes fit in `b` bytes: the character count up to the last
/// character boundary at or before byte `b`.
pub open spec fn chars_within_from(s: Seq<char>, b: nat, k: int) -> int
    decreases s.len() - k,
{
    if 0 <= k < s.len() && byte_len(s.take(k + 1)) <= b {
        chars_within_from(s, b, k + 1)
    } else {
        k
    }
}

/// The character count up to the last character boundary at or before byte
/// `b` of `s`.
pub open spec fn chars_within(s: Seq<char>, b: nat) -> int {
    chars_within_from(s, b, 0)
}

/// The first 80 characters of `flat`, with `...` when there is more.
pub open spec fn snippet_head(flat: Seq<char>) -> Seq<char> {
    if flat.len() > 80 {
        flat.take(80) + "..."@
    } else {
        flat
    }
}

/// Byte offsets `(start, end)` of the window around a match at character
/// `k` of the lower-cased text: 40 bytes either side of the needle, within
/// the text.
pub open spec fn window(flat: Seq<char>, lower: Seq<char>, needle: Seq<char>, k: int) -> (nat, nat) {
    let idx = byte_len(lower.take(k));
    let start: nat = if idx >= 40 { (idx - 40) as nat } else { 0 };
    let wide = idx + byte_len(needle) + 40;
    let end: nat = if wide <= byte_len(flat) { wide as nat } else { byte_len(flat) };
    (start, end)
}

/// Whether a match leaves a window that can be sliced: its start boundary
/// is not past its end boundary (lower-casing that lengthens the text can
/// push the start past the end).
pub open spec fn window_ok(flat: Seq<char>, lower: Seq<char>, needle: Option<Seq<char>>) -> bool {
    match needle {
        Some(n) => n.len() == 0 || match find_from(lower, n, 0) {
            Some(k) => {
                let (start, end) = window(flat, lower, n, k);
                chars_within(flat, start) <= chars_within(flat, end)
            },
            None => true,
        },
        None => true,
    }
}

/// The snippet of a flattened, trimmed, non-empty text `flat` whose lower
/// case is `lower`: with an empty needle, the first 80 characters; around
/// the first match of the needle in `lower`, the window of 40 bytes either
/// side, cut back to character boundaries and marked `...` where cut;
/// otherwise the head of the text.
pub open spec fn snippet_core(flat: Seq<char>, lower: Seq<char>, needle: Option<Seq<char>>) -> Seq<char> {
    match needle {
        Some(n) => if n.len() == 0 {
            flat.take(if flat.len() > 80 { 80 } else { flat.len() as int })
        } else {
            match find_from(lower, n, 0) {
                Some(k) => {
                    let (start, end) = window(flat, lower, n, k);
                    let a = chars_within(flat, start);
                    let b = chars_within(flat, end);
                    (if a > 0 { "..."@ } else { Seq::empty() }) + flat.subrange(a, b) + (if b < flat.len() {
                        "..."@
                    } else {
                        Seq::empty()
                    })
                },
                None => snippet_head(flat),
            }
        },
        None => snippet_head(flat),
    }
}

/// The text a snippet is cut from: newlines as spaces, trimmed.
pub open spec fn snippet_text(content: Seq<char>) -> Seq<char> {
    trim(flatten_newlines(content))
}

proof fn lemma_byte_len_step(s: Seq<char>, k: int)
    requires
        0 <= k < s.len(),
    ensures
        byte_len(s.take(k + 1)) == byte_len(s.take(k)) + utf8_width(s[k]),
{
    assert(s.take(k + 1).drop_last() =~= s.take(k));
}

proof fn lemma_byte_len_bound(s: Seq<char>)
    ensures
        byte_len(s) <= 4 * s.len(),
    decreases s.len(),
{
    if s.len() > 0 {
        lemma_byte_len_bound(s.drop_last());
    }
}

fn char_width(c: char) -> (w: u128)
    ensures
        w == utf8_width(c),
{
    if (c as u32) < 0x80 {
        1
    } else if (c as u32) < 0x800 {
        2
    } else if (c as u32) < 0x10000 {
        3
    } else {
        4
    }
}

/// UTF-8 length of the first `k` characters.
fn prefix_bytes(v: &Vec<char>, k: usize) -> (r: u128)
    requires
        k <= v.len(),
    ensures
        r == byte_len(v@.take(k as int)),
{
    let mut b: u128 = 0;
    let mut i: usize = 0;
    assert(v@.take(0) =~= Seq::<char>::empty());
    while i < k
        invariant
            i <= k <= v.len(),
            b == byte_len(v@.take(i as int)),
        decreases k - i,
    {
        proof {
            lemma_byte_len_step(v@, i as int);
            lemma_byte_len_bound(v@.take(i as int));
        }
        b = b + char_width(v[i]);
        i = i + 1;
    }
    b
}

fn chars_within_exec(v: &Vec<char>, limit: u128) -> (r: usize)
    ensures
        r == chars_within(v@, limit as nat),
        r <= v.len(),
{
    let mut k: usize = 0;
    let mut b: u128 = 0;
    assert(v@.take(0) =~= Seq::<char>::empty());
    while k < v.len()
        invariant
            k <= v.len(),
            b == byte_len(v@.take(k as int)),
            chars_within_from(v@, limit as nat, k as int) == chars_within(v@, limit as nat),
        decreases v.len() - k,
    {
        proof {
            lemma_byte_len_step(v@, k as int);
            lemma_byte_len_bound(v@.take(k as int));
        }
        let next = b + char_width(v[k]);
        if next > limit {
            return k;
        }
        b = next;
        k = k + 1;
    }
    k
}

fn matches_at(s: &Vec<char>, t: &Vec<char>, k: usize) -> (r: bool)
    requires
        k + t.len() <= s.len(),
    ensures
        r == (s@.subrange(k as int, k + t.len()) == t@),
{
    let mut j: usize = 0;
    while j < t.len()
        invariant
            j <= t.len(),
            k + t.len() <= s.len(),
            forall|x: int| 0 <= x < j ==> s@[k + x] == t@[x],
        decreases t.len() - j,
    {
        if s[k + j] != t[j] {
            assert(s@.subrange(k as int, k + t.len())[j as int] != t@[j as int]);
            return false;
        }
        j = j + 1;
    }
    assert(s@.subrange(k as int, k + t.len()) =~= t@);
    true
}

fn find_exec(s: &Vec<char>, t: &Vec<char>) -> (r: Option<usize>)
    ensures
        match r {
            Some(k) => find_from(s@, t@, 0) == Some(k as int) && k + t.len() <= s.len(),
            None => find_from(s@, t@, 0) is None,
        },
{
    if t.len() > s.len() {
        return None;
    }
    let mut k: usize = 0;
    let last = s.len() - t.len();
    loop
        invariant
            t.len() <= s.len(),
            last == s.len() - t.len(),
            k <= last,
            find_from(s@, t@, 0) == find_from(s@, t@, k as int),
        decreases last - k,
    {
        if matches_at(s, t, k) {
            return Some(k);
        }
        if k == last {
            assert(find_from(s@, t@, k + 1) is None);
            return None;
        }
        k = k + 1;
    }
}

fn head_snippet(v: &Vec<char>) -> (r: String)
    ensures
        r@ == snippet_head(v@),
{
    if v.len() > 80 {
        let mut h = string_of_range(v, 0, 80);
        push_str(&mut h, "...");
        h
    } else {
        string_of(v)
    }
}

/// The text a snippet is cut from (see [`snippet_text`]).
pub fn snippet_source(content: &str) -> (r: String)
    ensures
        r@ == snippet_text(content@),
{
    let v = chars_of(content);
    let mut flat: Vec<char> = Vec::new();
    let mut i: usize = 0;
    while i < v.len()
        invariant
            i <= v.len(),
            v@ == content@,
            flat@ == flatten_newlines(v@.take(i as int)),
        decreases v.len() - i,
    {
        let c = v[i];
        flat.push(if c == '\n' { ' ' } else { c });
        assert(flatten_newlines(v@.take(i + 1)) =~= flatten_newlines(v@.take(i as int)).push(
            if c == '\n' { ' ' } else { c },
        ));
        i = i + 1;
    }
    assert(v@.take(v.len() as int) =~= v@);
    let f = string_of(&flat);
    trim_str(f.as_str())
}

/// The snippet of a flattened, trimmed, non-empty `flat`, given its lower
/// case `lower` (see [`snippet_core`]).
pub fn snippet_with_lower(flat: &str, lower: &str, needle: Option<&str>) -> (r: String)
    requires
        window_ok(flat@, lower@, opt_str_view(needle)),
    ensures
        r@ == snippet_core(flat@, lower@, opt_str_view(needle)),
{
    let fv = chars_of(flat);
    match needle {
        Some(n) => {
            let nv = chars_of(n);
            if nv.len() == 0 {
                let m = if fv.len() > 80 { 80 } else { fv.len() };
                return string_of_range(&fv, 0, m);
            }
            let lv = chars_of(lower);
            match find_exec(&lv, &nv) {
                Some(k) => {
                    let idx = prefix_bytes(&lv, k);
                    let start: u128 = if idx >= 40 { idx - 40 } else { 0 };
                    let nb = prefix_bytes(&nv, nv.len());
                    let fb = prefix_bytes(&fv, fv.len());
                    assert(nv@.take(nv.len() as int) =~= nv@);
                    assert(fv@.take(fv.len() as int) =~= fv@);
                    proof {
                        lemma_byte_len_bound(lv@.take(k as int));
                        lemma_byte_len_bound(nv@);
                    }
                    let wide = idx + nb + 40;
                    let end: u128 = if wide <= fb { wide } else { fb };
                    let a = chars_within_exec(&fv, start);
                    let b = chars_within_exec(&fv, end);
                    let mut out = String::new();
                    if a > 0 {
                        push_str(&mut out, "...");
                    }
                    let body = string_of_range(&fv, a, b);
                    push_str(&mut out, body.as_str());
                    if b < fv.len() {
                        push_str(&mut out, "...");
                    }
                    out
                },
                None => head_snippet(&fv),
            }
        },
        None => head_snippet(&fv),
    }
}


/// The search snippet of a message `content` around `needle` (PSM's
/// resume-x snippet): `Some(None)` for blank content, `Some(Some(snippet))`
/// otherwise, and `None` where the window around the first match cannot be
/// sliced (lower-casing lengthened the text before the match so much that
/// the window would start after its end).
pub fn snippet_around(content: &str, needle: Option<&str>) -> (r: Option<Option<String>>)
    ensures
        ({
            let flat = snippet_text(content@);
            let lower = unicode_lowercase(flat);
            match r {
                None => flat.len() > 0 && !window_ok(flat, lower, opt_str_view(needle)),
                Some(None) => flat.len() == 0,
                Some(Some(s)) => flat.len() > 0 && window_ok(flat, lower, opt_str_view(needle)) && s@ == snippet_core(
                    flat,
                    lower,
                    opt_str_view(needle),
                ),
            }
        }),
{
    let flat = snippet_source(content);
    if flat.unicode_len() == 0 {
        return Some(None);
    }
    let lower = to_lowercase(flat.as_str());
    if !window_fits(flat.as_str(), lower.as_str(), needle) {
        return None;
    }
    Some(Some(snippet_with_lower(flat.as_str(), lower.as_str(), needle)))
}

/// Whether the window around the needle's first match can be sliced (see
/// [`window_ok`]).
pub fn window_fits(flat: &str, lower: &str, needle: Option<&str>) -> (r: bool)
    ensures
        r == window_ok(flat@, lower@, opt_str_view(needle)),
{
    match needle {
        None => true,
        Some(n) => {
            let nv = chars_of(n);
            if nv.len() == 0 {
                return true;
            }
            let lv = chars_of(lower);
            let fv = chars_of(flat);
            match find_exec(&lv, &nv) {
                None => true,
                Some(k) => {
                    let idx = prefix_bytes(&lv, k);
                    let start: u128 = if idx >= 40 { idx - 40 } else { 0 };
                    let nb = prefix_bytes(&nv, nv.len());
                    let fb = prefix_bytes(&fv, fv.len());
                    assert(nv@.take(nv.len() as int) =~= nv@);
                    assert(fv@.take(fv.len() as int) =~= fv@);
                    proof {
                        lemma_byte_len_bound(lv@.take(k as int));
                        lemma_byte_len_bound(nv@);
                    }
                    let wide = idx + nb + 40;
                    let end: u128 = if wide <= fb { wide } else { fb };
                    chars_within_exec(&fv, start) <= chars_within_exec(&fv, end)
                },
            }
        },
    }
}


/// The indexes of the rows whose session id comes first in `ids`, in row
/// order.
pub open spec fn first_rows(ids: Seq<Seq<char>>, n: int) -> Seq<usize>
    decreases n,
{
    if n <= 0 {
        Seq::empty()
    } else if ids.take(n - 1).contains(ids[n - 1]) {
        first_rows(ids, n - 1)
    } else {
        first_rows(ids, n - 1).push((n - 1) as usize)
    }
}

/// `hits` cut to `cap` entries.
pub open spec fn capped(hits: Seq<usize>, cap: nat) -> Seq<usize> {
    if hits.len() <= cap {
        hits
    } else {
        hits.take(cap as int)
    }
}

/// The search hits kept from rows with session ids `ids`: the first row of
/// each session, in row order, stopping once `limit` hits are kept (a hit is
/// kept before the limit is checked, so a zero limit keeps one).
pub open spec fn search_hit_rows(ids: Seq<Seq<char>>, limit: usize) -> Seq<usize> {
    capped(first_rows(ids, ids.len() as int), if limit == 0 { 1 } else { limit as nat })
}

fn seen_before(ids: &Vec<String>, i: usize) -> (r: bool)
    requires
        i < ids.len(),
    ensures
        r == ids.deep_view().take(i as int).contains(ids.deep_view()[i as int]),
{
    let ghost dv = ids.deep_view();
    let mut j: usize = 0;
    while j < i
        invariant
            i < ids.len(),
            j <= i,
            dv == ids.deep_view(),
            forall|k: int| 0 <= k < j ==> dv[k] != dv[i as int],
        decreases i - j,
    {
        if crate::text::str_eq(ids[j].as_str(), ids[i].as_str()) {
            assert(dv.take(i as int)[j as int] == dv[i as int]);
            return true;
        }
        j = j + 1;
    }
    assert forall|k: int| 0 <= k < dv.take(i as int).len() implies dv.take(i as int)[k] != dv[i as int] by {}
    false
}

/// The rows of a search result to keep (see [`search_hit_rows`]), by index.
pub fn search_hit_indexes(ids: &Vec<String>, limit: usize) -> (r: Vec<usize>)
    ensures
        r@ == search_hit_rows(ids.deep_view(), limit),
{
    let ghost dv = ids.deep_view();
    let cap: usize = if limit == 0 { 1 } else { limit };
    let mut out: Vec<usize> = Vec::new();
    let mut i: usize = 0;
    while i < ids.len()
        invariant
            i <= ids.len(),
            dv == ids.deep_view(),
            cap as nat == (if limit == 0 { 1 } else { limit as nat }),
            out@ == capped(first_rows(dv, i as int), cap as nat),
        decreases ids.len() - i,
    {
        let fresh = !seen_before(ids, i);
        proof {
            assert(dv.take(i + 1 - 1) == dv.take(i as int));
        }
        if fresh && out.len() < cap {
            out.push(i);
        }
        proof {
            let h = first_rows(dv, i as int);
            if fresh {
                assert(first_rows(dv, i + 1) == h.push(i as usize));
                if h.len() < cap {
                    assert(capped(h.push(i as usize), cap as nat) =~= h.push(i as usize));
                } else {
                    assert(capped(h.push(i as usize), cap as nat) =~= capped(h, cap as nat));
                }
            }
        }
        i = i + 1;
    }
    assert(dv.len() == ids.len());
    out
}

/// The summary of a search hit: the session's summary, else the matched
/// message's snippet, else `(no content)`.
pub open spec fn hit_summary_spec(summary: Seq<char>, snippet: Option<Seq<char>>) -> Seq<char> {
    if summary.len() > 0 {
        summary
    } else {
        match snippet {
            Some(s) => s,
            None => "(no content)"@,
        }
    }
}

/// The summary of a search hit (see [`hit_summary_spec`]).
pub fn hit_summary(summary: &str, snippet: Option<&str>) -> (r: String)
    ensures
        r@ == hit_summary_spec(summary@, opt_str_view(snippet)),
{
    if summary.unicode_len() > 0 {
        to_owned(summary)
    } else {
        match snippet {
            Some(s) => to_owned(s),
            None => String::from_str("(no content)"),
        }
    }
}

} // verus!
