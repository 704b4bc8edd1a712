//! Unix path arithmetic on path strings.
//!
//! The adapter names files by joining, trimming and re-suffixing paths.  Paths
//! are kept as strings here and the operations follow the Unix rules of
//! `std::path`: a component is a maximal run between `/` separators, empty
//! runs and `.` runs are ignored (a leading `.` of a relative path is kept as
//! the current directory), and a leading `/` is the root.
use crate::text::{chars_eq, chars_of, push_char, string_of_range, to_owned};
use vstd::prelude::*;

verus! {

/// Length of the part of `s` that precedes its body: the root `/`, or a
/// leading `.` of a relative path (`.` alone or followed by `/`).
pub open spec fn body_start(s: Seq<char>) -> nat {
    if s.len() > 0 && s[0] == '/' {
        1
    } else if s.len() > 0 && s[0] == '.' && (s.len() == 1 || s[1] == '/') {
        1
    } else {
        0
    }
}

/// `s` with trailing separators and trailing `.` components removed, never
/// cutting below `floor`.
pub open spec fn trim_back(s: Seq<char>, floor: nat) -> Seq<char>
    decreases s.len(),
{
    if s.len() > floor && s.last() == '/' {
        trim_back(s.drop_last(), floor)
    } else if s.len() > floor && s.last() == '.' && (s.len() - 1 == floor || s[s.len() - 2]
        == '/') {
        trim_back(s.drop_last(), floor)
    } else {
        s
    }
}

/// Index just after the last `/` of `t` at or beyond `floor` (or `floor`).
pub open spec fn last_sep_end(t: Seq<char>, floor: nat) -> nat
    decreases t.len(),
{
    if t.len() <= floor {
        floor
    } else if t.last() == '/' {
        t.len()
    } else {
        last_sep_end(t.drop_last(), floor)
    }
}

/// `s` trimmed at the back.
pub open spec fn trimmed(s: Seq<char>) -> Seq<char> {
    trim_back(s, body_start(s))
}

/// The last component of the body of `s` (empty when the body is empty).
pub open spec fn last_piece(s: Seq<char>) -> Seq<char> {
    let t = trimmed(s);
    t.skip(last_sep_end(t, body_start(s)) as int)
}

/// `Path::file_name`: the last component when it is a normal name.
pub open spec fn file_name_spec(s: Seq<char>) -> Option<Seq<char>> {
    let p = last_piece(s);
    if p.len() == 0 || p == seq!['.', '.'] {
        None
    } else {
        Some(p)
    }
}

/// `Path::parent`.
pub open spec fn parent_spec(s: Seq<char>) -> Option<Seq<char>> {
    let f = body_start(s);
    let t = trimmed(s);
    if t.len() > f {
        Some(trim_back(t.take(last_sep_end(t, f) as int), f))
    } else if s.len() > 0 && s[0] == '.' {
        Some(Seq::empty())
    } else {
        None
    }
}

/// `Path::join` (`PathBuf::push`): an absolute `b` replaces `a`; otherwise a
/// separator is inserted unless `a` is empty or already ends with one.
pub open spec fn join_spec(a: Seq<char>, b: Seq<char>) -> Seq<char> {
    if b.len() > 0 && b[0] == '/' {
        b
    } else if a.len() == 0 || a.last() == '/' {
        a + b
    } else {
        a + seq!['/'] + b
    }
}

/// `Path::file_stem` of a file name.
pub open spec fn stem_of(name: Seq<char>) -> Seq<char> {
    if name == seq!['.', '.'] {
        name
    } else {
        match last_dot(name) {
            Some(i) => if i == 0 {
                name
            } else {
                name.take(i)
            },
            None => name,
        }
    }
}

/// Index of the last `.` in `s`.
pub open spec fn last_dot(s: Seq<char>) -> Option<int>
    decreases s.len(),
{
    if s.len() == 0 {
        None
    } else if s.last() == '.' {
        Some(s.len() - 1)
    } else {
        last_dot(s.drop_last())
    }
}

/// `Path::with_extension`.
pub open spec fn with_extension_spec(s: Seq<char>, ext: Seq<char>) -> Seq<char> {
    match file_name_spec(s) {
        None => s,
        Some(name) => {
            let t = trimmed(s);
            let kept = t.take(t.len() - name.len() + stem_of(name).len());
            if ext.len() == 0 {
                kept
            } else {
                kept + seq!['.'] + ext
            }
        },
    }
}

/// `Path::with_file_name`.
pub open spec fn with_file_name_spec(s: Seq<char>, name: Seq<char>) -> Seq<char> {
    match file_name_spec(s) {
        Some(_) => join_spec(parent_spec(s).unwrap(), name),
        None => join_spec(s, name),
    }
}

/// The `/`-separated pieces of `s`, empty pieces included.
pub open spec fn pieces(s: Seq<char>) -> Seq<Seq<char>>
    decreases s.len(),
{
    if s.len() == 0 {
        seq![Seq::empty()]
    } else {
        let p = pieces(s.drop_last());
        if s.last() == '/' {
            p.push(Seq::empty())
        } else {
            p.update(p.len() - 1, p.last().push(s.last()))
        }
    }
}

/// Components from a list of pieces: empty pieces and `.` pieces are dropped,
/// except a `.` first piece of a relative path.
pub open spec fn comps_of_pieces(ps: Seq<Seq<char>>, rooted: bool) -> Seq<Seq<char>>
    decreases ps.len(),
{
    if ps.len() == 0 {
        if rooted {
            seq![seq!['/']]
        } else {
            Seq::empty()
        }
    } else {
        let prev = comps_of_pieces(ps.drop_last(), rooted);
        let piece = ps.last();
        if piece.len() == 0 || (piece == seq!['.'] && !(ps.len() == 1 && !rooted)) {
            prev
        } else {
            prev.push(piece)
        }
    }
}

/// `Path::components`, each written as text (the root as `/`).
pub open spec fn components(s: Seq<char>) -> Seq<Seq<char>> {
    comps_of_pieces(pieces(s), s.len() > 0 && s[0] == '/')
}

/// The character sequences held by a vector of character vectors.
pub open spec fn seqs_of(v: Seq<Vec<char>>) -> Seq<Seq<char>> {
    v.map_values(|x: Vec<char>| x@)
}

/// Path equality: equal component lists.
pub open spec fn path_eq_spec(a: Seq<char>, b: Seq<char>) -> bool {
    components(a) == components(b)
}

/// `Path::starts_with`: the components of `base` are a prefix of those of `s`.
pub open spec fn path_starts_with_spec(s: Seq<char>, base: Seq<char>) -> bool {
    components(base).is_prefix_of(components(s))
}

proof fn lemma_trim_back_prefix(s: Seq<char>, floor: nat)
    ensures
        trim_back(s, floor).len() <= s.len(),
        trim_back(s, floor) == s.take(trim_back(s, floor).len() as int),
        s.len() >= floor ==> trim_back(s, floor).len() >= floor,
    decreases s.len(),
{
    if s.len() > floor && (s.last() == '/' || (s.last() == '.' && (s.len() - 1 == floor || s[s.len()
        - 2] == '/'))) {
        lemma_trim_back_prefix(s.drop_last(), floor);
        let r = trim_back(s.drop_last(), floor);
        assert(r == s.take(r.len() as int)) by {
            assert(s.drop_last().take(r.len() as int) =~= s.take(r.len() as int));
        }
    } else {
        assert(s.take(s.len() as int) =~= s);
    }
}

/// Length of `trim_back(v[..len], floor)`.
fn trim_back_len(v: &Vec<char>, len: usize, floor: usize) -> (r: usize)
    requires
        len <= v.len(),
        floor <= len,
    ensures
        r == trim_back(v@.take(len as int), floor as nat).len(),
        floor <= r <= len,
{
    let mut k = len;
    while k > floor && (v[k - 1] == '/' || (v[k - 1] == '.' && (k - 1 == floor || v[k - 2]
        == '/')))
        invariant
            floor <= k <= len <= v.len(),
            trim_back(v@.take(k as int), floor as nat) == trim_back(v@.take(len as int), floor as nat),
        decreases k,
    {
        assert(v@.take(k as int).drop_last() =~= v@.take(k - 1));
        k = k - 1;
    }
    proof {
        lemma_trim_back_prefix(v@.take(len as int), floor as nat);
    }
    k
}

/// `last_sep_end(v[..len], floor)`.
fn last_sep_end_exec(v: &Vec<char>, len: usize, floor: usize) -> (r: usize)
    requires
        len <= v.len(),
        floor <= len,
    ensures
        r == last_sep_end(v@.take(len as int), floor as nat),
        floor <= r <= len,
{
    let mut k = len;
    while k > floor && v[k - 1] != '/'
        invariant
            floor <= k <= len <= v.len(),
            last_sep_end(v@.take(k as int), floor as nat) == last_sep_end(v@.take(len as int), floor as nat),
        decreases k,
    {
        assert(v@.take(k as int).drop_last() =~= v@.take(k - 1));
        k = k - 1;
    }
    k
}

fn body_start_exec(v: &Vec<char>) -> (r: usize)
    ensures
        r == body_start(v@),
        r <= v.len(),
{
    if v.len() > 0 && v[0] == '/' {
        1
    } else if v.len() > 0 && v[0] == '.' && (v.len() == 1 || v[1] == '/') {
        1
    } else {
        0
    }
}

/// Bounds `(trimmed length, start of the last piece)` of `v`.
fn last_piece_bounds(v: &Vec<char>) -> (r: (usize, usize))
    ensures
        r.0 == trimmed(v@).len(),
        r.1 == last_sep_end(trimmed(v@), body_start(v@)),
        body_start(v@) <= r.1 <= r.0 <= v.len(),
        trimmed(v@) == v@.take(r.0 as int),
        last_piece(v@) == v@.subrange(r.1 as int, r.0 as int),
{
    let f = body_start_exec(v);
    let t = trim_back_len(v, v.len(), f);
    let e = last_sep_end_exec(v, t, f);
    proof {
        assert(v@.take(v.len() as int) =~= v@);
        lemma_trim_back_prefix(v@, f as nat);
        assert(trimmed(v@) == v@.take(t as int));
        assert(v@.take(t as int).skip(e as int) =~= v@.subrange(e as int, t as int));
    }
    (t, e)
}

/// `Path::file_name`.
pub fn file_name(path: &str) -> (r: Option<String>)
    ensures
        match r {
            Some(n) => file_name_spec(path@) == Some(n@),
            None => file_name_spec(path@) is None,
        },
{
    let v = chars_of(path);
    let (t, e) = last_piece_bounds(&v);
    if t == e || (t - e == 2 && v[e] == '.' && v[e + 1] == '.') {
        proof {
            if t - e == 2 && v@[e as int] == '.' && v@[e + 1] == '.' {
                assert(last_piece(v@) =~= seq!['.', '.']);
            }
        }
        None
    } else {
        proof {
            let lp = v@.subrange(e as int, t as int);
            if lp == seq!['.', '.'] {
                assert(lp.len() == 2);
                assert(v@[e as int] == lp[0]);
                assert(v@[e + 1] == lp[1]);
            }
        }
        Some(string_of_range(&v, e, t))
    }
}

/// `Path::parent`.
pub fn parent(path: &str) -> (r: Option<String>)
    ensures
        match r {
            Some(p) => parent_spec(path@) == Some(p@),
            None => parent_spec(path@) is None,
        },
{
    let v = chars_of(path);
    let f = body_start_exec(&v);
    let (t, e) = last_piece_bounds(&v);
    if t > f {
        let k = trim_back_len(&v, e, f);
        proof {
            assert(trimmed(v@).take(e as int) =~= v@.take(e as int));
            lemma_trim_back_prefix(v@.take(e as int), f as nat);
            assert(v@.take(e as int).take(k as int) =~= v@.take(k as int));
        }
        Some(string_of_range(&v, 0, k))
    } else if v.len() > 0 && v[0] == '.' {
        Some(String::new())
    } else {
        None
    }
}

/// `Path::join`.
pub fn join(a: &str, b: &str) -> (r: String)
    ensures
        r@ == join_spec(a@, b@),
{
    let bv = chars_of(b);
    if bv.len() > 0 && bv[0] == '/' {
        return to_owned(b);
    }
    let av = chars_of(a);
    let mut out = to_owned(a);
    if !(av.len() == 0 || av[av.len() - 1] == '/') {
        push_char(&mut out, '/');
    }
    out.append(b);
    out
}

proof fn lemma_last_dot_bounds(s: Seq<char>)
    ensures
        last_dot(s) matches Some(i) ==> 0 <= i < s.len() && s[i] == '.',
    decreases s.len(),
{
    if s.len() > 0 && s.last() != '.' {
        lemma_last_dot_bounds(s.drop_last());
    }
}

fn last_dot_exec(v: &Vec<char>, lo: usize, hi: usize) -> (r: Option<usize>)
    requires
        lo <= hi <= v.len(),
    ensures
        match last_dot(v@.subrange(lo as int, hi as int)) {
            Some(i) => r == Some((i + lo) as usize),
            None => r is None,
        },
        r matches Some(x) ==> lo <= x < hi,
{
    let mut k = hi;
    while k > lo && v[k - 1] != '.'
        invariant
            lo <= k <= hi <= v.len(),
            last_dot(v@.subrange(lo as int, k as int)) == last_dot(v@.subrange(lo as int, hi as int)),
        decreases k,
    {
        assert(v@.subrange(lo as int, k as int).drop_last() =~= v@.subrange(lo as int, k - 1));
        k = k - 1;
    }
    if k > lo {
        Some(k - 1)
    } else {
        None
    }
}

/// `Path::with_extension`.
pub fn with_extension(path: &str, ext: &str) -> (r: String)
    ensures
        r@ == with_extension_spec(path@, ext@),
{
    let name = file_name(path);
    match name {
        None => to_owned(path),
        Some(n) => {
            let v = chars_of(path);
            let (t, e) = last_piece_bounds(&v);
            let is_dotdot = t - e == 2 && v[e] == '.' && v[e + 1] == '.';
            let dot = last_dot_exec(&v, e, t);
            let stem_end: usize = if is_dotdot {
                t
            } else {
                match dot {
                    Some(i) => if i == e {
                        t
                    } else {
                        i
                    },
                    None => t,
                }
            };
            proof {
                let nm = v@.subrange(e as int, t as int);
                assert(nm == n@);
                if is_dotdot {
                    assert(nm =~= seq!['.', '.']);
                }
                if nm == seq!['.', '.'] {
                    assert(v@[e as int] == nm[0] && v@[e + 1] == nm[1]);
                }
                assert(e <= stem_end <= t);
                if nm == seq!['.', '.'] {
                    assert(stem_of(nm) =~= nm.take(stem_end - e));
                } else {
                    lemma_last_dot_bounds(nm);
                    match last_dot(nm) {
                        Some(i) => {
                            if i == 0 {
                                assert(stem_of(nm) =~= nm.take(stem_end - e));
                            } else {
                                assert(stem_of(nm) =~= nm.take(stem_end - e));
                            }
                        },
                        None => {
                            assert(stem_of(nm) =~= nm.take(stem_end - e));
                        },
                    }
                }
                assert(trimmed(v@).take(t - nm.len() + stem_of(nm).len()) =~= v@.take(
                    stem_end as int,
                ));
            }
            let mut out = string_of_range(&v, 0, stem_end);
            if ext.unicode_len() > 0 {
                push_char(&mut out, '.');
                out.append(ext);
            }
            out
        },
    }
}

/// `Path::with_file_name`.
pub fn with_file_name(path: &str, name: &str) -> (r: String)
    ensures
        r@ == with_file_name_spec(path@, name@),
{
    match file_name(path) {
        Some(_) => {
            let p = parent(path);
            proof {
                let v = path@;
                let f = body_start(v);
                let t = trimmed(v);
                lemma_trim_back_prefix(v, f);
                assert(t.len() > f) by {
                    if t.len() <= f {
                        assert(last_sep_end(t, f) == f);
                        assert(last_piece(v).len() == 0);
                    }
                }
            }
            let p = p.unwrap();
            join(p.as_str(), name)
        },
        None => join(path, name),
    }
}

/// Pieces of `v[..len]`, as character vectors.
fn pieces_exec(v: &Vec<char>) -> (r: Vec<Vec<char>>)
    ensures
        seqs_of(r@) == pieces(v@),
{
    let mut out: Vec<Vec<char>> = Vec::new();
    out.push(Vec::new());
    let mut i: usize = 0;
    assert(seqs_of(out@) =~= pieces(v@.take(0)));
    while i < v.len()
        invariant
            i <= v.len(),
            out.len() >= 1,
            seqs_of(out@) == pieces(v@.take(i as int)),
        decreases v.len() - i,
    {
        assert(v@.take(i + 1).drop_last() =~= v@.take(i as int));
        if v[i] == '/' {
            out.push(Vec::new());
            assert(seqs_of(out@) =~= pieces(v@.take(i as int)).push(Seq::empty()));
        } else {
            let last = out.len() - 1;
            let mut piece = out.pop().unwrap();
            piece.push(v[i]);
            out.push(piece);
            assert(seqs_of(out@) =~= pieces(v@.take(i as int)).update(
                last as int,
                pieces(v@.take(i as int)).last().push(v@[i as int]),
            ));
        }
        i = i + 1;
    }
    assert(v@.take(v.len() as int) =~= v@);
    out
}

/// `Path::components`, each written as text (the root as `/`).
pub fn components_of(path: &str) -> (r: Vec<Vec<char>>)
    ensures
        seqs_of(r@) == components(path@),
{
    let v = chars_of(path);
    let ps = pieces_exec(&v);
    let rooted = v.len() > 0 && v[0] == '/';
    let mut out: Vec<Vec<char>> = Vec::new();
    if rooted {
        let mut root: Vec<char> = Vec::new();
        root.push('/');
        out.push(root);
        assert(seqs_of(out@) =~= seq![seq!['/']]);
    }
    let mut i: usize = 0;
    assert(seqs_of(ps@).take(0) =~= Seq::<Seq<char>>::empty());
    while i < ps.len()
        invariant
            i <= ps.len(),
            seqs_of(out@) == comps_of_pieces(seqs_of(ps@).take(i as int), rooted),
        decreases ps.len() - i,
    {
        assert(seqs_of(ps@).take(i + 1).drop_last() =~= seqs_of(ps@).take(i as int));
        let piece = &ps[i];
        let is_dot = piece.len() == 1 && piece[0] == '.';
        proof {
            if piece@ == seq!['.'] {
                assert(piece@[0] == '.');
            }
            if is_dot {
                assert(piece@ =~= seq!['.']);
            }
        }
        if piece.len() == 0 || (is_dot && !(i == 0 && !rooted)) {
        } else {
            out.push(piece.clone());
            proof {
                assert(seqs_of(ps@).take(i + 1).last() == piece@);
            }
        }
        i = i + 1;
    }
    assert(seqs_of(ps@).take(ps.len() as int) =~= seqs_of(ps@));
    out
}

fn comps_prefix(a: &Vec<Vec<char>>, b: &Vec<Vec<char>>) -> (r: bool)
    ensures
        r == seqs_of(a@).is_prefix_of(seqs_of(b@)),
{
    if a.len() > b.len() {
        return false;
    }
    let mut i: usize = 0;
    while i < a.len()
        invariant
            a.len() <= b.len(),
            i <= a.len(),
            forall|j: int| 0 <= j < i ==> seqs_of(a@)[j] == seqs_of(b@)[j],
        decreases a.len() - i,
    {
        if !chars_eq(&a[i], &b[i]) {
            assert(seqs_of(a@)[i as int] != seqs_of(b@)[i as int]);
            return false;
        }
        i = i + 1;
    }
    assert(seqs_of(a@) =~= seqs_of(b@).take(a.len() as int));
    true
}

/// Path equality (`Path == Path`): equal components.
pub fn path_eq(a: &str, b: &str) -> (r: bool)
    ensures
        r == path_eq_spec(a@, b@),
{
    let ca = components_of(a);
    let cb = components_of(b);
    if ca.len() != cb.len() {
        return false;
    }
    let r = comps_prefix(&ca, &cb);
    proof {
        if r {
            assert(seqs_of(ca@) =~= seqs_of(cb@));
        }
    }
    r
}

/// `Path::starts_with`.
pub fn path_starts_with(s: &str, base: &str) -> (r: bool)
    ensures
        r == path_starts_with_spec(s@, base@),
{
    let cs = components_of(s);
    let cb = components_of(base);
    comps_prefix(&cb, &cs)
}

} // verus!
