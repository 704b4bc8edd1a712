//! Pi themes: color values and their resolution through theme variables,
//! theme documents' names and ids, and the in-process theme catalog.
use crate::text::{chars_of, push_str, str_eq, to_owned, trim, trim_str};
use vstd::prelude::*;

verus! {

// ─── Colors ──────────────────────────────────────────────────────────────────

/// A color value as Pi theme JSON writes it.
#[derive(Debug, Clone)]
pub enum ColorValue {
    /// Hex (`#rrggbb`), empty (terminal default), or a variable's name.
    Text(String),
    /// An xterm 256-color palette index.
    Index(u64),
}

/// A resolved terminal color.
#[derive(Debug, Clone, Copy, PartialEq, Eq, Structural)]
pub enum PiColor {
    /// The terminal's default color.
    Reset,
    /// An xterm 256-color palette entry.
    Indexed(u8),
    Rgb(u8, u8, u8),
}

/// Why a color value could not be resolved.
#[derive(Debug, Clone)]
pub enum ColorError {
    InvalidHex(String),
    InvalidIndex(u64),
    UnknownVar(String),
    CircularVar(String),
}

/// The message of a color error.
pub open spec fn color_error_text(e: ColorError) -> Seq<char> {
    match e {
        ColorError::InvalidHex(s) => "invalid hex color: "@ + s@,
        ColorError::InvalidIndex(i) => "color index out of range 0-255: "@ + crate::text::decimal(
            i as nat,
        ),
        ColorError::UnknownVar(v) => "unknown theme variable: "@ + v@,
        ColorError::CircularVar(v) => "circular theme variable reference: "@ + v@,
    }
}

impl ColorError {
    /// The error's message.
    pub fn message(&self) -> (r: String)
        ensures
            r@ == color_error_text(*self),
    {
        match self {
            ColorError::InvalidHex(s) => {
                let mut out = String::from_str("invalid hex color: ");
                push_str(&mut out, s.as_str());
                out
            },
            ColorError::InvalidIndex(i) => {
                let mut out = String::from_str("color index out of range 0-255: ");
                crate::text::push_decimal(&mut out, *i);
                out
            },
            ColorError::UnknownVar(v) => {
                let mut out = String::from_str("unknown theme variable: ");
                push_str(&mut out, v.as_str());
                out
            },
            ColorError::CircularVar(v) => {
                let mut out = String::from_str("circular theme variable reference: ");
                push_str(&mut out, v.as_str());
                out
            },
        }
    }
}

/// The number of UTF-8 bytes of a character.
pub open spec fn utf8_width(c: char) -> nat {
    if (c as u32) < 0x80 {
        1
    } else if (c as u32) < 0x800 {
        2
    } else if (c as u32) < 0x10000 {
        3
    } else {
        4
    }
}

/// The number of UTF-8 bytes of a text.
pub open spec fn byte_len(s: Seq<char>) -> nat
    decreases s.len(),
{
    if s.len() == 0 {
        0
    } else {
        byte_len(s.drop_last()) + utf8_width(s.last())
    }
}

/// Whether byte offset `b` of `s` falls between characters.
pub open spec fn char_boundary(s: Seq<char>, b: nat) -> bool {
    exists|k: int| 0 <= k <= s.len() && byte_len(#[trigger] s.take(k)) == b
}

/// `s` without leading `#` characters.
pub open spec fn strip_hashes(s: Seq<char>) -> Seq<char>
    decreases s.len(),
{
    if s.len() > 0 && s[0] == '#' {
        strip_hashes(s.drop_first())
    } else {
        s
    }
}

/// The digits of a hex color: trimmed, without its leading `#`s.
pub open spec fn hex_digits(hex: Seq<char>) -> Seq<char> {
    strip_hashes(trim(hex))
}

/// Whether cutting a six-byte color text into byte pairs stays on character
/// boundaries (the pairs are sliced by byte offset).
pub open spec fn hex_slices_ok(hex: Seq<char>) -> bool {
    let d = hex_digits(hex);
    byte_len(d) == 6 ==> char_boundary(d, 2) && char_boundary(d, 4)
}

/// The value of a hex digit.
pub open spec fn hex_value(c: char) -> Option<u8> {
    if '0' <= c && c <= '9' {
        Some(((c as u32) - 48) as u8)
    } else if 'a' <= c && c <= 'f' {
        Some(((c as u32) - 87) as u8)
    } else if 'A' <= c && c <= 'F' {
        Some(((c as u32) - 55) as u8)
    } else {
        None
    }
}

/// `u8::from_str_radix(text, 16)` for a two-character text: two hex digits,
/// or `+` and one.
pub open spec fn hex_pair(a: char, b: char) -> Option<u8> {
    if a == '+' {
        hex_value(b)
    } else {
        match (hex_value(a), hex_value(b)) {
            (Some(x), Some(y)) => Some((16 * x + y) as u8),
            _ => None,
        }
    }
}

/// Whether every character of `s` is ASCII.
pub open spec fn all_ascii(s: Seq<char>) -> bool {
    forall|i: int| 0 <= i < s.len() ==> ((#[trigger] s[i]) as u32) < 128
}

/// The color `#rrggbb` stands for (hex digits in either case), if any.
/// Only an all-ASCII six-character text can be one: a character outside
/// ASCII spoils the byte pair it falls in.
pub open spec fn hex_spec(hex: Seq<char>) -> Option<(u8, u8, u8)> {
    let d = hex_digits(hex);
    if d.len() == 6 && all_ascii(d) {
        match (hex_pair(d[0], d[1]), hex_pair(d[2], d[3]), hex_pair(d[4], d[5])) {
            (Some(r), Some(g), Some(b)) => Some((r, g, b)),
            _ => None,
        }
    } else {
        None
    }
}

proof fn lemma_byte_len_ascii(s: Seq<char>)
    ensures
        byte_len(s) >= s.len(),
        all_ascii(s) ==> byte_len(s) == s.len(),
        byte_len(s) == s.len() ==> all_ascii(s),
    decreases s.len(),
{
    if s.len() > 0 {
        lemma_byte_len_ascii(s.drop_last());
        if byte_len(s) == s.len() {
            assert forall|i: int| 0 <= i < s.len() implies ((#[trigger] s[i]) as u32) < 128 by {
                if i < s.len() - 1 {
                    assert(s.drop_last()[i] == s[i]);
                }
            }
        }
    }
}

fn hex_value_exec(c: char) -> (r: Option<u8>)
    ensures
        r == hex_value(c),
{
    if '0' <= c && c <= '9' {
        Some(((c as u32) - 48) as u8)
    } else if 'a' <= c && c <= 'f' {
        Some(((c as u32) - 87) as u8)
    } else if 'A' <= c && c <= 'F' {
        Some(((c as u32) - 55) as u8)
    } else {
        None
    }
}

fn hex_pair_exec(a: char, b: char) -> (r: Option<u8>)
    ensures
        r == hex_pair(a, b),
{
    if a == '+' {
        hex_value_exec(b)
    } else {
        match (hex_value_exec(a), hex_value_exec(b)) {
            (Some(x), Some(y)) => Some(16 * x + y),
            _ => None,
        }
    }
}

fn hex_digits_exec(hex: &str) -> (r: Vec<char>)
    ensures
        r@ == hex_digits(hex@),
{
    let t = trim_str(hex);
    let v = chars_of(t.as_str());
    let mut k: usize = 0;
    assert(v@.skip(0) =~= v@);
    while k < v.len() && v[k] == '#'
        invariant
            k <= v.len(),
            v@ == trim(hex@),
            strip_hashes(v@.skip(k as int)) == hex_digits(hex@),
        decreases v.len() - k,
    {
        assert(v@.skip(k as int).drop_first() =~= v@.skip(k + 1));
        k = k + 1;
    }
    let mut out: Vec<char> = Vec::new();
    let mut i: usize = k;
    while i < v.len()
        invariant
            k <= i <= v.len(),
            out@ == v@.subrange(k as int, i as int),
        decreases v.len() - i,
    {
        out.push(v[i]);
        assert(out@ =~= v@.subrange(k as int, i + 1));
        i = i + 1;
    }
    assert(out@ =~= v@.skip(k as int));
    out
}

/// The number of UTF-8 bytes of `v`, capped just above `cap`.
fn byte_len_capped(v: &Vec<char>, cap: usize) -> (r: usize)
    requires
        cap < usize::MAX - 4,
    ensures
        r <= cap ==> r == byte_len(v@),
        r > cap ==> byte_len(v@) > cap,
{
    let mut n: usize = 0;
    let mut i: usize = 0;
    while i < v.len()
        invariant
            i <= v.len(),
            cap < usize::MAX - 4,
            n == byte_len(v@.take(i as int)),
            n <= cap,
        decreases v.len() - i,
    {
        assert(v@.take(i + 1).drop_last() =~= v@.take(i as int));
        let c = v[i];
        let w: usize = if (c as u32) < 0x80 {
            1
        } else if (c as u32) < 0x800 {
            2
        } else if (c as u32) < 0x10000 {
            3
        } else {
            4
        };
        n = n + w;
        i = i + 1;
        if n > cap {
            proof {
                lemma_byte_len_prefix(v@, i as int);
            }
            return n;
        }
    }
    assert(v@.take(v.len() as int) =~= v@);
    n
}

proof fn lemma_byte_len_prefix(s: Seq<char>, i: int)
    requires
        0 <= i <= s.len(),
    ensures
        byte_len(s.take(i)) <= byte_len(s),
    decreases s.len() - i,
{
    if i < s.len() {
        lemma_byte_len_prefix(s, i + 1);
        assert(s.take(i + 1).drop_last() =~= s.take(i));
    } else {
        assert(s.take(i) =~= s);
    }
}

/// Whether `hex_to_color` can slice `hex` into byte pairs (callers check
/// this where a failed slice must abort).
pub fn hex_slices_on_char_boundaries(hex: &str) -> (r: bool)
    ensures
        r == hex_slices_ok(hex@),
{
    let d = hex_digits_exec(hex);
    let n = byte_len_capped(&d, 6);
    if n != 6 {
        return true;
    }
    proof {
        lemma_byte_len_ascii(d@);
    }
    let mut b: usize = 0;
    let mut k: usize = 0;
    let mut at2 = false;
    let mut at4 = false;
    assert(d@.take(0) =~= Seq::<char>::empty());
    while k < d.len()
        invariant
            k <= d.len() <= 6,
            byte_len(d@) == 6,
            b == byte_len(d@.take(k as int)),
            at2 == exists|j: int| 0 <= j < k && byte_len(#[trigger] d@.take(j)) == 2,
            at4 == exists|j: int| 0 <= j < k && byte_len(#[trigger] d@.take(j)) == 4,
        decreases d.len() - k,
    {
        if b == 2 {
            at2 = true;
        }
        if b == 4 {
            at4 = true;
        }
        assert(d@.take(k + 1).drop_last() =~= d@.take(k as int));
        proof {
            lemma_byte_len_prefix(d@, k + 1);
        }
        let c = d[k];
        let w: usize = if (c as u32) < 0x80 {
            1
        } else if (c as u32) < 0x800 {
            2
        } else if (c as u32) < 0x10000 {
            3
        } else {
            4
        };
        b = b + w;
        k = k + 1;
    }
    assert(d@.take(d.len() as int) =~= d@);
    if b == 2 {
        at2 = true;
    }
    if b == 4 {
        at4 = true;
    }
    at2 && at4
}

/// Parse `#rrggbb` (hex digits in either case) into an RGB color.
pub fn hex_to_color(hex: &str) -> (r: Result<PiColor, ColorError>)
    requires
        hex_slices_ok(hex@),
    ensures
        match hex_spec(hex@) {
            Some((red, green, blue)) => r == Ok::<PiColor, ColorError>(PiColor::Rgb(red, green, blue)),
            None => r matches Err(ColorError::InvalidHex(s)) && s@ == hex@,
        },
{
    let d = hex_digits_exec(hex);
    let n = byte_len_capped(&d, 6);
    proof {
        lemma_byte_len_ascii(d@);
    }
    if n != 6 || d.len() != 6 {
        assert(!(d@.len() == 6 && all_ascii(d@)));
        return Err(ColorError::InvalidHex(to_owned(hex)));
    }
    let mut i: usize = 0;
    while i < 6
        invariant
            i <= 6,
            d@.len() == 6,
            d@ == hex_digits(hex@),
            forall|j: int| 0 <= j < i ==> ((#[trigger] d@[j]) as u32) < 128,
        decreases 6 - i,
    {
        if (d[i] as u32) >= 128 {
            return Err(ColorError::InvalidHex(to_owned(hex)));
        }
        i = i + 1;
    }
    let r = hex_pair_exec(d[0], d[1]);
    let g = hex_pair_exec(d[2], d[3]);
    let b = hex_pair_exec(d[4], d[5]);
    match (r, g, b) {
        (Some(x), Some(y), Some(z)) => Ok(PiColor::Rgb(x, y, z)),
        _ => Err(ColorError::InvalidHex(to_owned(hex))),
    }
}


// ─── Variable resolution ─────────────────────────────────────────────────────

/// How a color value resolves through the theme's variables.
pub enum Resolved {
    /// A value that needs no variable: an index, `""` or a `#` color.
    Leaf(ColorValue),
    /// A variable that the theme does not define.
    Unknown(Seq<char>),
    /// A variable met twice on the way: a reference cycle.
    Circular(Seq<char>),
}

/// Whether a value stands for itself.
pub open spec fn is_leaf(v: ColorValue) -> bool {
    match v {
        ColorValue::Index(_) => true,
        ColorValue::Text(s) => s@.len() == 0 || s@[0] == '#',
    }
}

/// The value of variable `name` (the first definition).
pub open spec fn var_lookup(vars: Seq<(String, ColorValue)>, name: Seq<char>) -> Option<ColorValue>
    decreases vars.len(),
{
    if vars.len() == 0 {
        None
    } else if vars[0].0@ == name {
        Some(vars[0].1)
    } else {
        var_lookup(vars.drop_first(), name)
    }
}

/// The variable names of `vars`.
pub open spec fn var_names(vars: Seq<(String, ColorValue)>) -> Seq<Seq<char>> {
    vars.map_values(|p: (String, ColorValue)| p.0@)
}

/// Following variable references from `v`, with the variables `visited`
/// already passed (at most `fuel` more steps; enough steps are always left,
/// see [`resolve_outcome`]).
pub open spec fn resolve_fuel(v: ColorValue, vars: Seq<(String, ColorValue)>, visited: Seq<Seq<char>>, fuel: nat) -> Resolved
    decreases fuel,
{
    if is_leaf(v) {
        Resolved::Leaf(v)
    } else {
        let name = match v {
            ColorValue::Text(s) => s@,
            ColorValue::Index(_) => Seq::empty(),
        };
        if visited.contains(name) {
            Resolved::Circular(name)
        } else {
            match var_lookup(vars, name) {
                None => Resolved::Unknown(name),
                Some(next) => if fuel == 0 {
                    Resolved::Circular(name)
                } else {
                    resolve_fuel(next, vars, visited.push(name), (fuel - 1) as nat)
                },
            }
        }
    }
}

/// How `v` resolves: follow variable references until a value that stands
/// for itself, an undefined variable, or a variable met before.
pub open spec fn resolve_outcome(v: ColorValue, vars: Seq<(String, ColorValue)>) -> Resolved {
    resolve_fuel(v, vars, Seq::empty(), vars.len())
}

proof fn lemma_var_lookup(vars: Seq<(String, ColorValue)>, name: Seq<char>)
    ensures
        var_lookup(vars, name) is Some ==> var_names(vars).contains(name),
        var_lookup(vars, name) matches Some(x) ==> exists|j: int| 0 <= j < vars.len() && vars[j].0@ == name && vars[j].1 == x,
    decreases vars.len(),
{
    if vars.len() > 0 && vars[0].0@ != name {
        lemma_var_lookup(vars.drop_first(), name);
        if var_lookup(vars, name) is Some {
            let k = choose|k: int| 0 <= k < var_names(vars.drop_first()).len() && var_names(vars.drop_first())[k] == name;
            assert(var_names(vars)[k + 1] == name);
        }
        if let Some(x) = var_lookup(vars, name) {
            let j = choose|j: int| 0 <= j < vars.drop_first().len() && vars.drop_first()[j].0@ == name && vars.drop_first()[j].1 == x;
            assert(vars[j + 1] == vars.drop_first()[j]);
        }
    } else if vars.len() > 0 {
        assert(var_names(vars)[0] == name);
    }
}

proof fn lemma_pigeonhole<A>(seen: Seq<A>, names: Seq<A>)
    requires
        seen.no_duplicates(),
        forall|i: int| 0 <= i < seen.len() ==> names.contains(#[trigger] seen[i]),
    ensures
        seen.len() <= names.len(),
{
    broadcast use vstd::seq_lib::seq_to_set_is_finite;
    seen.unique_seq_to_set();
    names.lemma_cardinality_of_set();
    assert(seen.to_set().subset_of(names.to_set())) by {
        assert forall|x: A| seen.to_set().contains(x) implies names.to_set().contains(x) by {
            let i = choose|i: int| 0 <= i < seen.len() && seen[i] == x;
            assert(names.contains(seen[i]));
        }
    }
    vstd::set_lib::lemma_len_subset(seen.to_set(), names.to_set());
}

fn copy_value(v: &ColorValue) -> (r: ColorValue)
    ensures
        r == *v,
{
    match v {
        ColorValue::Text(s) => ColorValue::Text(s.clone()),
        ColorValue::Index(i) => ColorValue::Index(*i),
    }
}

fn var_lookup_exec(vars: &Vec<(String, ColorValue)>, name: &str) -> (r: Option<ColorValue>)
    ensures
        r == var_lookup(vars@, name@),
{
    let mut i: usize = 0;
    assert(vars@.skip(0) =~= vars@);
    while i < vars.len()
        invariant
            i <= vars.len(),
            var_lookup(vars@, name@) == var_lookup(vars@.skip(i as int), name@),
        decreases vars.len() - i,
    {
        assert(vars@.skip(i as int)[0] == vars@[i as int]);
        if str_eq(vars[i].0.as_str(), name) {
            return Some(copy_value(&vars[i].1));
        }
        assert(vars@.skip(i as int).drop_first() =~= vars@.skip(i + 1));
        i = i + 1;
    }
    None
}

/// Follow `value` through the theme's variables to a value that stands for
/// itself.
pub fn resolve_var_refs(value: &ColorValue, vars: &Vec<(String, ColorValue)>) -> (r: Result<ColorValue, ColorError>)
    ensures
        match resolve_outcome(*value, vars@) {
            Resolved::Leaf(v) => r == Ok::<ColorValue, ColorError>(v),
            Resolved::Unknown(n) => r matches Err(ColorError::UnknownVar(s)) && s@ == n,
            Resolved::Circular(n) => r matches Err(ColorError::CircularVar(s)) && s@ == n,
        },
{
    let mut cur = copy_value(value);
    let mut visited: Vec<String> = Vec::new();
    assert(visited.deep_view() =~= Seq::<Seq<char>>::empty());
    loop
        invariant
            visited.deep_view().no_duplicates(),
            forall|i: int| 0 <= i < visited.len() ==> var_names(vars@).contains(#[trigger] visited.deep_view()[i]),
            visited.len() <= vars.len(),
            resolve_outcome(*value, vars@) == resolve_fuel(
                cur,
                vars@,
                visited.deep_view(),
                (vars.len() - visited.len()) as nat,
            ),
        decreases vars.len() - visited.len(),
    {
        let name: String = match &cur {
            ColorValue::Index(_) => return Ok(cur),
            ColorValue::Text(s) => {
                if s.as_str().is_empty() || chars_of(s.as_str())[0] == '#' {
                    return Ok(cur);
                }
                s.clone()
            },
        };
        let mut seen = false;
        let mut j: usize = 0;
        while j < visited.len()
            invariant
                j <= visited.len(),
                seen == exists|k: int| 0 <= k < j && visited.deep_view()[k] == name@,
            decreases visited.len() - j,
        {
            assert(visited.deep_view()[j as int] == visited@[j as int]@);
            if str_eq(visited[j].as_str(), name.as_str()) {
                seen = true;
            }
            j = j + 1;
        }
        if seen {
            return Err(ColorError::CircularVar(name));
        }
        let next = match var_lookup_exec(vars, name.as_str()) {
            None => return Err(ColorError::UnknownVar(name)),
            Some(n) => n,
        };
        proof {
            lemma_var_lookup(vars@, name@);
            let pushed = visited.deep_view().push(name@);
            assert forall|i: int| 0 <= i < pushed.len() implies var_names(vars@).contains(#[trigger] pushed[i]) by {
                if i < visited.len() {
                    assert(pushed[i] == visited.deep_view()[i]);
                }
            }
            assert(pushed.no_duplicates());
            lemma_pigeonhole(pushed, var_names(vars@));
        }
        let ghost before = visited.deep_view();
        visited.push(name);
        assert(visited.deep_view() =~= before.push(name@));
        cur = next;
    }
}

/// Whether resolving `value` ends on a text that can be sliced into byte
/// pairs (or on no text at all).
pub open spec fn resolves_sliceable(value: ColorValue, vars: Seq<(String, ColorValue)>) -> bool {
    match resolve_outcome(value, vars) {
        Resolved::Leaf(ColorValue::Text(s)) => hex_slices_ok(s@),
        _ => true,
    }
}

/// Resolve `value` through the theme's variables and turn it into a color:
/// `""` is the terminal default, `#rrggbb` an RGB color, an index up to 255 a
/// palette entry.
pub fn resolve_color(value: &ColorValue, vars: &Vec<(String, ColorValue)>) -> (r: Result<PiColor, ColorError>)
    requires
        resolves_sliceable(*value, vars@),
    ensures
        match resolve_outcome(*value, vars@) {
            Resolved::Leaf(ColorValue::Index(i)) => if i > 255 {
                r matches Err(ColorError::InvalidIndex(j)) && j == i
            } else {
                r == Ok::<PiColor, ColorError>(PiColor::Indexed(i as u8))
            },
            Resolved::Leaf(ColorValue::Text(s)) => if s@.len() == 0 {
                r == Ok::<PiColor, ColorError>(PiColor::Reset)
            } else {
                match hex_spec(s@) {
                    Some((red, green, blue)) => r == Ok::<PiColor, ColorError>(PiColor::Rgb(red, green, blue)),
                    None => r matches Err(ColorError::InvalidHex(t)) && t@ == s@,
                }
            },
            Resolved::Unknown(n) => r matches Err(ColorError::UnknownVar(t)) && t@ == n,
            Resolved::Circular(n) => r matches Err(ColorError::CircularVar(t)) && t@ == n,
        },
{
    let leaf = resolve_var_refs(value, vars);
    match leaf {
        Err(e) => Err(e),
        Ok(ColorValue::Index(i)) => if i > 255 {
            Err(ColorError::InvalidIndex(i))
        } else {
            Ok(PiColor::Indexed(i as u8))
        },
        Ok(ColorValue::Text(s)) => if s.as_str().is_empty() {
            Ok(PiColor::Reset)
        } else {
            hex_to_color(s.as_str())
        },
    }
}

/// What resolving `value` gives: the color, or the message of the error.
pub open spec fn color_outcome(value: ColorValue, vars: Seq<(String, ColorValue)>) -> Result<PiColor, Seq<char>> {
    match resolve_outcome(value, vars) {
        Resolved::Leaf(ColorValue::Index(i)) => if i > 255 {
            Err("color index out of range 0-255: "@ + crate::text::decimal(i as nat))
        } else {
            Ok(PiColor::Indexed(i as u8))
        },
        Resolved::Leaf(ColorValue::Text(s)) => if s@.len() == 0 {
            Ok(PiColor::Reset)
        } else {
            match hex_spec(s@) {
                Some((red, green, blue)) => Ok(PiColor::Rgb(red, green, blue)),
                None => Err("invalid hex color: "@ + s@),
            }
        },
        Resolved::Unknown(n) => Err("unknown theme variable: "@ + n),
        Resolved::Circular(n) => Err("circular theme variable reference: "@ + n),
    }
}

/// The index of the first of `tokens` whose color does not resolve.
pub open spec fn first_failing(tokens: Seq<(String, ColorValue)>, vars: Seq<(String, ColorValue)>, n: int) -> Option<int>
    decreases n,
{
    if n <= 0 {
        None
    } else {
        match first_failing(tokens, vars, n - 1) {
            Some(k) => Some(k),
            None => if color_outcome(tokens[n - 1].1, vars) is Err {
                Some(n - 1)
            } else {
                None
            },
        }
    }
}

/// Resolve a theme's color tokens `(token, value)` in order: all colors, or
/// the first token that fails with its error.
pub fn resolve_tokens(tokens: &Vec<(String, ColorValue)>, vars: &Vec<(String, ColorValue)>) -> (r: Result<Vec<PiColor>, MapError>)
    requires
        forall|i: int| 0 <= i < tokens@.len() ==> resolves_sliceable(#[trigger] tokens@[i].1, vars@),
    ensures
        match first_failing(tokens@, vars@, tokens@.len() as int) {
            None => r matches Ok(colors) && colors@.len() == tokens@.len() && forall|i: int|
                0 <= i < tokens@.len() ==> color_outcome(#[trigger] tokens@[i].1, vars@) == Ok::<PiColor, Seq<char>>(
                    colors@[i],
                ),
            Some(k) => r matches Err(MapError::Color(t, e)) && t@ == tokens@[k].0@ && color_outcome(tokens@[k].1, vars@)
                == Err::<PiColor, Seq<char>>(color_error_text(e)),
        },
{
    let mut colors: Vec<PiColor> = Vec::new();
    let mut i: usize = 0;
    while i < tokens.len()
        invariant
            i <= tokens.len(),
            forall|j: int| 0 <= j < tokens@.len() ==> resolves_sliceable(#[trigger] tokens@[j].1, vars@),
            first_failing(tokens@, vars@, i as int) is None,
            colors@.len() == i,
            forall|j: int| 0 <= j < i ==> color_outcome(#[trigger] tokens@[j].1, vars@) == Ok::<PiColor, Seq<char>>(colors@[j]),
        decreases tokens.len() - i,
    {
        let c = resolve_color(&tokens[i].1, vars);
        match c {
            Ok(color) => {
                proof {
                    reveal_strlit("invalid hex color: ");
                }
                assert(color_outcome(tokens@[i as int].1, vars@) == Ok::<PiColor, Seq<char>>(color));
                colors.push(color);
            },
            Err(e) => {
                assert(color_outcome(tokens@[i as int].1, vars@) == Err::<PiColor, Seq<char>>(color_error_text(e)));
                assert(first_failing(tokens@, vars@, i + 1) == Some(i as int));
                proof {
                    lemma_first_failing_stays(tokens@, vars@, i + 1, tokens@.len() as int);
                }
                return Err(MapError::Color(tokens[i].0.clone(), e));
            },
        }
        i = i + 1;
    }
    Ok(colors)
}

proof fn lemma_first_failing_stays(tokens: Seq<(String, ColorValue)>, vars: Seq<(String, ColorValue)>, m: int, n: int)
    requires
        0 <= m <= n,
        first_failing(tokens, vars, m) is Some,
    ensures
        first_failing(tokens, vars, n) == first_failing(tokens, vars, m),
    decreases n - m,
{
    if m < n {
        lemma_first_failing_stays(tokens, vars, m, n - 1);
    }
}

/// Resolution never loops: following references ends after at most one
/// step per theme variable, and a reference cycle is reported as such.
pub proof fn law_cycles_are_reported(vars: Seq<(String, ColorValue)>, a: Seq<char>, b: Seq<char>, sa: String, sb: String)
    requires
        a != b,
        sa@ == a,
        sb@ == b,
        !is_leaf(ColorValue::Text(sa)),
        !is_leaf(ColorValue::Text(sb)),
        var_lookup(vars, a) == Some(ColorValue::Text(sb)),
        var_lookup(vars, b) == Some(ColorValue::Text(sa)),
    ensures
        resolve_outcome(ColorValue::Text(sa), vars) == Resolved::Circular(a),
{
    lemma_var_lookup(vars, a);
    lemma_var_lookup(vars, b);
    let names = var_names(vars);
    assert(names.contains(a) && names.contains(b));
    let ia = choose|i: int| 0 <= i < names.len() && names[i] == a;
    let ib = choose|i: int| 0 <= i < names.len() && names[i] == b;
    assert(ia != ib);
    assert(vars.len() >= 2);
    let s1 = Seq::<Seq<char>>::empty().push(a);
    let s2 = s1.push(b);
    assert(!Seq::<Seq<char>>::empty().contains(a));
    assert(!s1.contains(b)) by {
        if s1.contains(b) {
            let k = choose|k: int| 0 <= k < s1.len() && s1[k] == b;
            assert(s1[0] == a);
        }
    }
    assert(s2.contains(a)) by {
        assert(s2[0] == a);
    }
    reveal_with_fuel(resolve_fuel, 3);
}


// ─── Theme documents ─────────────────────────────────────────────────────────

/// The message of a mapping error.
pub open spec fn map_error_text(m: MapError) -> Seq<char> {
    match m {
        MapError::Color(t, e) => "token `"@ + t@ + "`: "@ + color_error_text(e),
    }
}

/// Why a theme color token could not be mapped.
#[derive(Debug, Clone)]
pub enum MapError {
    /// The token and why its color did not resolve.
    Color(String, ColorError),
}

impl MapError {
    /// The error's message.
    pub fn message(&self) -> (r: String)
        ensures
            r@ == map_error_text(*self),
    {
        match self {
            MapError::Color(t, e) => {
                let mut out = String::from_str("token `");
                push_str(&mut out, t.as_str());
                push_str(&mut out, "`: ");
                let m = e.message();
                push_str(&mut out, m.as_str());
                out
            },
        }
    }
}

/// Why a theme could not be loaded.
#[derive(Debug, Clone)]
pub enum LoadError {
    Io(String),
    Json(String),
    InvalidName(String),
    Mapping(MapError),
}

impl LoadError {
    /// The error's message.
    pub fn message(&self) -> (r: String)
        ensures
            match self {
                LoadError::Io(e) => r@ == "io error: "@ + e@,
                LoadError::Json(e) => r@ == "json error: "@ + e@,
                LoadError::InvalidName(n) => r@ == "invalid theme name: "@ + n@,
                LoadError::Mapping(m) => r@ == "map error: "@ + map_error_text(*m),
            },
    {
        match self {
            LoadError::Io(e) => {
                let mut out = String::from_str("io error: ");
                push_str(&mut out, e.as_str());
                out
            },
            LoadError::Json(e) => {
                let mut out = String::from_str("json error: ");
                push_str(&mut out, e.as_str());
                out
            },
            LoadError::InvalidName(n) => {
                let mut out = String::from_str("invalid theme name: ");
                push_str(&mut out, n.as_str());
                out
            },
            LoadError::Mapping(m) => {
                let mut out = String::from_str("map error: ");
                let t = m.message();
                push_str(&mut out, t.as_str());
                out
            },
        }
    }
}

/// Whether a theme name is acceptable: not empty and without `/`.
pub open spec fn valid_name_spec(name: Seq<char>) -> bool {
    name.len() > 0 && !crate::text::has_char(name, '/')
}

/// Check a theme document's name.
pub fn validate_name(name: &str) -> (r: Result<(), LoadError>)
    ensures
        valid_name_spec(name@) ==> r is Ok,
        !valid_name_spec(name@) ==> (r matches Err(LoadError::InvalidName(n)) && n@ == name@),
{
    if name.is_empty() || crate::text::contains_char(name, '/') {
        return Err(LoadError::InvalidName(to_owned(name)));
    }
    Ok(())
}

/// The prefix of Pi theme ids in Grok's settings and slash UI.
pub const PI_THEME_PREFIX: &'static str = "pi:";

/// The canonical id of a theme name: `pi:<name>`.
pub open spec fn theme_id_spec(name: Seq<char>) -> Seq<char> {
    "pi:"@ + name
}

/// The canonical id of Pi theme `name`.
pub fn theme_id(name: &str) -> (r: String)
    ensures
        r@ == theme_id_spec(name@),
{
    let mut out = String::from_str(PI_THEME_PREFIX);
    push_str(&mut out, name);
    out
}

/// The theme name a setting refers to: the non-empty rest after `pi:` of the
/// trimmed setting.
pub open spec fn parse_id_spec(id: Seq<char>) -> Option<Seq<char>> {
    let t = trim(id);
    if crate::text::has_prefix(t, "pi:"@) && t.len() > 3 {
        Some(t.skip(3))
    } else {
        None
    }
}

/// The Pi theme name of setting `id`, if it names one (`pi:<name>`).
pub fn parse_pi_theme_id(id: &str) -> (r: Option<String>)
    ensures
        match r {
            Some(n) => parse_id_spec(id@) == Some(n@),
            None => parse_id_spec(id@) is None,
        },
{
    let t = trim_str(id);
    proof {
        reveal_strlit("pi:");
    }
    if crate::text::starts_with(t.as_str(), PI_THEME_PREFIX) {
        let v = chars_of(t.as_str());
        if v.len() > 3 {
            assert(v@.subrange(3, v.len() as int) =~= v@.skip(3));
            return Some(crate::text::string_of_range(&v, 3, v.len()));
        }
    }
    None
}

/// Whether setting `id` names a Pi theme.
pub fn is_pi_theme_id(id: &str) -> (r: bool)
    ensures
        r == parse_id_spec(id@) is Some,
{
    parse_pi_theme_id(id).is_some()
}

/// Ids and names agree: the id of a theme name parses back to that name.
pub proof fn law_theme_id_round_trip(name: Seq<char>)
    requires
        name.len() > 0,
        trim(theme_id_spec(name)) == theme_id_spec(name),
    ensures
        parse_id_spec(theme_id_spec(name)) == Some(name),
{
    reveal_strlit("pi:");
    let id = theme_id_spec(name);
    assert(id.take(3) =~= "pi:"@);
    assert(id.skip(3) =~= name);
}


// ─── Name order ──────────────────────────────────────────────────────────────

/// Lexicographic order of texts by code point (the order of `str`).
pub open spec fn lex_lt(a: Seq<char>, b: Seq<char>) -> bool
    decreases a.len(),
{
    if b.len() == 0 {
        false
    } else if a.len() == 0 {
        true
    } else if a[0] != b[0] {
        a[0] < b[0]
    } else {
        lex_lt(a.drop_first(), b.drop_first())
    }
}

pub proof fn lemma_lex_irreflexive(a: Seq<char>)
    ensures
        !lex_lt(a, a),
    decreases a.len(),
{
    if a.len() > 0 {
        lemma_lex_irreflexive(a.drop_first());
    }
}

pub proof fn lemma_lex_transitive(a: Seq<char>, b: Seq<char>, c: Seq<char>)
    requires
        lex_lt(a, b),
        lex_lt(b, c),
    ensures
        lex_lt(a, c),
    decreases a.len(),
{
    if a.len() > 0 && b.len() > 0 && c.len() > 0 && a[0] == b[0] && b[0] == c[0] {
        lemma_lex_transitive(a.drop_first(), b.drop_first(), c.drop_first());
    }
}

pub proof fn lemma_lex_total(a: Seq<char>, b: Seq<char>)
    ensures
        a == b || lex_lt(a, b) || lex_lt(b, a),
    decreases a.len(),
{
    if a.len() > 0 && b.len() > 0 && a[0] == b[0] {
        lemma_lex_total(a.drop_first(), b.drop_first());
        if a.drop_first() == b.drop_first() {
            assert(a =~= seq![a[0]] + a.drop_first());
            assert(b =~= seq![b[0]] + b.drop_first());
        }
    } else if a.len() == 0 && b.len() == 0 {
        assert(a =~= b);
    } else if a.len() > 0 && b.len() > 0 {
    }
}

pub fn lex_lt_exec(a: &str, b: &str) -> (r: bool)
    ensures
        r == lex_lt(a@, b@),
{
    let av = chars_of(a);
    let bv = chars_of(b);
    let mut i: usize = 0;
    assert(av@.skip(0) =~= av@);
    assert(bv@.skip(0) =~= bv@);
    while i < av.len() && i < bv.len() && av[i] == bv[i]
        invariant
            i <= av.len(),
            i <= bv.len(),
            av@ == a@,
            bv@ == b@,
            lex_lt(a@, b@) == lex_lt(av@.skip(i as int), bv@.skip(i as int)),
        decreases av.len() - i,
    {
        assert(av@.skip(i as int).drop_first() =~= av@.skip(i + 1));
        assert(bv@.skip(i as int).drop_first() =~= bv@.skip(i + 1));
        i = i + 1;
    }
    if i == bv.len() {
        false
    } else if i == av.len() {
        true
    } else {
        assert(av@.skip(i as int)[0] == av@[i as int]);
        assert(bv@.skip(i as int)[0] == bv@[i as int]);
        av[i] < bv[i]
    }
}

// ─── Theme catalog ───────────────────────────────────────────────────────────

/// What the catalog knows of a registered theme.
#[derive(Debug, Clone)]
pub struct PiThemeMeta {
    /// The theme's `name`.
    pub name: String,
    /// Its canonical id, `pi:<name>`.
    pub id: String,
    /// The file it came from (`None` for embedded themes).
    pub path: Option<String>,
    pub builtin: bool,
}

/// `(name, id, path, builtin)` of a theme entry.
pub open spec fn meta_view(m: PiThemeMeta) -> (Seq<char>, Seq<char>, Option<Seq<char>>, bool) {
    (m.name@, m.id@, crate::queue_bridge::opt_view(m.path), m.builtin)
}

/// The outcome of a discovery pass.
#[derive(Debug, Clone)]
pub struct DiscoveryReport {
    pub loaded: usize,
    pub skipped: usize,
    pub errors: Vec<String>,
}

impl DiscoveryReport {
    /// Nothing loaded, skipped or failed yet.
    pub fn new() -> (r: Self)
        ensures
            r.loaded == 0,
            r.skipped == 0,
            r.errors@.len() == 0,
    {
        DiscoveryReport { loaded: 0, skipped: 0, errors: Vec::new() }
    }

    fn push_error(&mut self, e: String)
        ensures
            final(self)@ == with_error(old(self)@, e@),
            final(self).loaded == old(self).loaded,
            final(self).skipped == old(self).skipped,
            final(self).errors@.len() == old(self).errors@.len() + 1,
    {
        let ghost before = self@;
        self.errors.push(e);
        assert(self@.errors =~= before.errors.push(e@));
    }
}

/// Abstract state of a [`ThemeRegistry`]: entries in registration order,
/// cached palettes, and whether the embedded themes were registered.
pub struct RegistryModel<P> {
    pub entries: Seq<(Seq<char>, Seq<char>, Option<Seq<char>>, bool)>,
    pub palettes: Seq<(Seq<char>, P)>,
    pub initialized: bool,
    pub embedded: BuiltinPalettes<P>,
}

/// The palettes of the four themes embedded in the program.
#[derive(Clone, Copy)]
pub struct BuiltinPalettes<P> {
    pub dark: P,
    pub light: P,
    pub transparent: P,
    pub transparent_light: P,
}

/// The embedded themes in registration order: `dark`, `light`,
/// `transparent`, `transparent-light`.
pub open spec fn builtin_list<P>(b: BuiltinPalettes<P>) -> Seq<(Seq<char>, P)> {
    seq![
        ("dark"@, b.dark),
        ("light"@, b.light),
        ("transparent"@, b.transparent),
        ("transparent-light"@, b.transparent_light),
    ]
}

/// The catalog entries of the embedded themes, in registration order.
pub open spec fn builtin_entries() -> Seq<(Seq<char>, Seq<char>, Option<Seq<char>>, bool)> {
    seq![
        ("dark"@, theme_id_spec("dark"@), None, true),
        ("light"@, theme_id_spec("light"@), None, true),
        ("transparent"@, theme_id_spec("transparent"@), None, true),
        ("transparent-light"@, theme_id_spec("transparent-light"@), None, true),
    ]
}

/// The catalog of Pi themes of this process, by name (the first
/// registration of a name wins), with their palettes of type `P`.
pub struct ThemeRegistry<P> {
    entries: Vec<PiThemeMeta>,
    palettes: Vec<(String, P)>,
    initialized: bool,
    embedded: BuiltinPalettes<P>,
}

impl<P> View for ThemeRegistry<P> {
    type V = RegistryModel<P>;

    closed spec fn view(&self) -> RegistryModel<P> {
        RegistryModel {
            entries: self.entries@.map_values(|m: PiThemeMeta| meta_view(m)),
            palettes: self.palettes@.map_values(|p: (String, P)| (p.0@, p.1)),
            initialized: self.initialized,
            embedded: self.embedded,
        }
    }
}

/// Index of the entry named `name`.
pub open spec fn entry_index(entries: Seq<(Seq<char>, Seq<char>, Option<Seq<char>>, bool)>, name: Seq<char>) -> Option<int> {
    if exists|i: int| 0 <= i < entries.len() && (#[trigger] entries[i]).0 == name {
        Some(choose|i: int| 0 <= i < entries.len() && (#[trigger] entries[i]).0 == name)
    } else {
        None
    }
}

/// Index of the palette cached for `name`.
pub open spec fn palette_index<P>(palettes: Seq<(Seq<char>, P)>, name: Seq<char>) -> Option<int> {
    if exists|i: int| 0 <= i < palettes.len() && (#[trigger] palettes[i]).0 == name {
        Some(choose|i: int| 0 <= i < palettes.len() && (#[trigger] palettes[i]).0 == name)
    } else {
        None
    }
}

/// Names are unique in both tables.
pub open spec fn registry_inv<P>(m: RegistryModel<P>) -> bool {
    &&& forall|i: int, j: int|
        0 <= i < j < m.entries.len() ==> (#[trigger] m.entries[i]).0 != (#[trigger] m.entries[j]).0
    &&& forall|i: int, j: int|
        0 <= i < j < m.palettes.len() ==> (#[trigger] m.palettes[i]).0 != (#[trigger] m.palettes[j]).0
}

/// Every entry's id is `pi:<name>`; an entry is embedded exactly when it
/// has no file; and until the embedded themes are registered, every entry
/// is an embedded one.
pub open spec fn entries_wf<P>(m: RegistryModel<P>) -> bool {
    forall|i: int|
        0 <= i < m.entries.len() ==> {
            &&& (#[trigger] m.entries[i]).1 == theme_id_spec(m.entries[i].0)
            &&& (m.entries[i].3 <==> m.entries[i].2 is None)
            &&& (!m.initialized ==> m.entries[i].3)
        }
}

/// Whether `entries` holds an embedded theme named `name`.
pub open spec fn has_builtin_entry(entries: Seq<(Seq<char>, Seq<char>, Option<Seq<char>>, bool)>, name: Seq<char>) -> bool {
    exists|i: int| 0 <= i < entries.len() && (#[trigger] entries[i]).0 == name && entries[i].3
}

/// Once initialized, the catalog holds the four embedded themes.
pub open spec fn builtins_present<P>(m: RegistryModel<P>) -> bool {
    m.initialized ==> forall|k: int| 0 <= k < 4 ==> has_builtin_entry(m.entries, #[trigger] builtin_entries()[k].0)
}

/// The catalog's invariant: unique names, well-formed entries, and the
/// embedded themes present once registered.
pub open spec fn catalog_inv<P>(m: RegistryModel<P>) -> bool {
    &&& registry_inv(m)
    &&& entries_wf(m)
    &&& builtins_present(m)
}

/// The palette table with `name` set to `palette` (replaced in place, or
/// added at the end).
pub open spec fn set_palette<P>(palettes: Seq<(Seq<char>, P)>, name: Seq<char>, palette: P) -> Seq<(Seq<char>, P)> {
    match palette_index(palettes, name) {
        Some(i) => palettes.update(i, (name, palette)),
        None => palettes.push((name, palette)),
    }
}

/// The entry table with `entry` for its name (replaced in place, or added
/// at the end).
pub open spec fn set_entry(entries: Seq<(Seq<char>, Seq<char>, Option<Seq<char>>, bool)>, entry: (Seq<char>, Seq<char>, Option<Seq<char>>, bool)) -> Seq<(Seq<char>, Seq<char>, Option<Seq<char>>, bool)> {
    match entry_index(entries, entry.0) {
        Some(i) => entries.update(i, entry),
        None => entries.push(entry),
    }
}


/// A discovery report as numbers and messages.
pub struct ReportModel {
    pub loaded: nat,
    pub skipped: nat,
    pub errors: Seq<Seq<char>>,
}

impl View for DiscoveryReport {
    type V = ReportModel;

    open spec fn view(&self) -> ReportModel {
        ReportModel {
            loaded: self.loaded as nat,
            skipped: self.skipped as nat,
            errors: self.errors@.map_values(|e: String| e@),
        }
    }
}

/// The message recorded for a theme file that failed to load or map.
pub open spec fn file_error_spec(path: Seq<char>, message: Seq<char>) -> Seq<char> {
    path + ": "@ + message
}

/// `r` with one more error.
pub open spec fn with_error(r: ReportModel, e: Seq<char>) -> ReportModel {
    ReportModel { errors: r.errors.push(e), ..r }
}

/// Registering one embedded theme: its entry unless the name is taken, and
/// its palette in any case.
pub open spec fn builtin_step<P>(m: RegistryModel<P>, name: Seq<char>, palette: P) -> RegistryModel<P> {
    RegistryModel {
        entries: if entry_index(m.entries, name) is Some {
            m.entries
        } else {
            m.entries.push((name, theme_id_spec(name), None, true))
        },
        palettes: set_palette(m.palettes, name, palette),
        ..m
    }
}

/// Registering the first `n` embedded themes in order.
pub open spec fn builtins_upto<P>(m: RegistryModel<P>, builtins: Seq<(Seq<char>, P)>, n: int) -> RegistryModel<P>
    decreases n,
{
    if n <= 0 {
        m
    } else {
        builtin_step(builtins_upto(m, builtins, n - 1), builtins[n - 1].0, builtins[n - 1].1)
    }
}

/// Registering the embedded themes once: nothing when already done.
pub open spec fn ensure_builtins_spec<P>(m: RegistryModel<P>) -> RegistryModel<P> {
    if m.initialized {
        m
    } else {
        RegistryModel { initialized: true, ..builtins_upto(m, builtin_list(m.embedded), 4) }
    }
}

/// Registering one discovered theme file at first discovery.
pub open spec fn file_step<P>(
    m: RegistryModel<P>,
    r: ReportModel,
    path: Seq<char>,
    loaded: Result<(String, Result<P, String>), String>,
) -> (RegistryModel<P>, ReportModel) {
    match loaded {
        Err(e) => (m, with_error(r, file_error_spec(path, e@))),
        Ok((name, mapped)) => if entry_index(m.entries, name@) is Some {
            (m, ReportModel { skipped: r.skipped + 1, ..r })
        } else {
            match mapped {
                Ok(palette) => (
                    RegistryModel {
                        entries: m.entries.push((name@, theme_id_spec(name@), Some(path), false)),
                        palettes: set_palette(m.palettes, name@, palette),
                        ..m
                    },
                    ReportModel { loaded: r.loaded + 1, ..r },
                ),
                Err(e) => (m, with_error(r, file_error_spec(path, e@))),
            }
        },
    }
}

/// Registering the first `n` discovered files in order.
pub open spec fn files_upto<P>(
    m: RegistryModel<P>,
    r: ReportModel,
    files: Seq<(String, Result<(String, Result<P, String>), String>)>,
    n: int,
) -> (RegistryModel<P>, ReportModel)
    decreases n,
{
    if n <= 0 {
        (m, r)
    } else {
        let (m1, r1) = files_upto(m, r, files, n - 1);
        file_step(m1, r1, files[n - 1].0@, files[n - 1].1)
    }
}

/// Registering or refreshing one theme file found by a rescan.
pub open spec fn refile_step<P>(
    m: RegistryModel<P>,
    r: ReportModel,
    path: Seq<char>,
    loaded: Result<(String, P), String>,
) -> (RegistryModel<P>, ReportModel) {
    match loaded {
        Err(e) => (m, with_error(r, file_error_spec(path, e@))),
        Ok((name, palette)) => {
            let entry = (name@, theme_id_spec(name@), Some(path), false);
            let palettes = set_palette(m.palettes, name@, palette);
            match entry_index(m.entries, name@) {
                Some(i) => if m.entries[i].3 {
                    (m, ReportModel { skipped: r.skipped + 1, ..r })
                } else {
                    (
                        RegistryModel { entries: m.entries.update(i, entry), palettes, ..m },
                        ReportModel { loaded: r.loaded + 1, ..r },
                    )
                },
                None => (
                    RegistryModel { entries: m.entries.push(entry), palettes, ..m },
                    ReportModel { loaded: r.loaded + 1, ..r },
                ),
            }
        },
    }
}

/// Registering or refreshing the first `n` rescanned files in order.
pub open spec fn refiles_upto<P>(
    m: RegistryModel<P>,
    r: ReportModel,
    files: Seq<(String, Result<(String, P), String>)>,
    n: int,
) -> (RegistryModel<P>, ReportModel)
    decreases n,
{
    if n <= 0 {
        (m, r)
    } else {
        let (m1, r1) = refiles_upto(m, r, files, n - 1);
        refile_step(m1, r1, files[n - 1].0@, files[n - 1].1)
    }
}

/// An empty report.
pub open spec fn empty_report() -> ReportModel {
    ReportModel { loaded: 0, skipped: 0, errors: Seq::empty() }
}

/// First discovery: the embedded themes, then each file; the report counts
/// every registered theme as loaded.
pub open spec fn init_discovery_spec<P>(
    m: RegistryModel<P>,
    files: Seq<(String, Result<(String, Result<P, String>), String>)>,
) -> (RegistryModel<P>, ReportModel) {
    let m0 = ensure_builtins_spec(m);
    files_upto(m0, ReportModel { loaded: m0.entries.len(), ..empty_report() }, files, files.len() as int)
}

/// Rediscovery: the embedded themes, then each file refreshed; the report's
/// `loaded` is the number of registered themes afterwards.
pub open spec fn rediscover_spec<P>(
    m: RegistryModel<P>,
    files: Seq<(String, Result<(String, P), String>)>,
) -> (RegistryModel<P>, ReportModel) {
    let (m1, r1) = refiles_upto(ensure_builtins_spec(m), empty_report(), files, files.len() as int);
    (m1, ReportModel { loaded: m1.entries.len(), ..r1 })
}

proof fn lemma_builtins_len<P>(m: RegistryModel<P>, builtins: Seq<(Seq<char>, P)>, n: int)
    requires
        0 <= n,
    ensures
        builtins_upto(m, builtins, n).entries.len() <= m.entries.len() + n,
    decreases n,
{
    if n > 0 {
        lemma_builtins_len(m, builtins, n - 1);
    }
}

impl<P: Copy> ThemeRegistry<P> {
    /// An empty catalog (also what clearing it gives) that registers the
    /// embedded themes, with the palettes `embedded`, on first use.
    pub fn new(embedded: BuiltinPalettes<P>) -> (r: Self)
        ensures
            r@.entries.len() == 0,
            r@.palettes.len() == 0,
            !r@.initialized,
            r@.embedded == embedded,
            catalog_inv(r@),
    {
        let r = ThemeRegistry { entries: Vec::new(), palettes: Vec::new(), initialized: false, embedded };
        assert(r@.entries =~= Seq::<(Seq<char>, Seq<char>, Option<Seq<char>>, bool)>::empty());
        assert(r@.palettes =~= Seq::<(Seq<char>, P)>::empty());
        r
    }

    /// Clear the catalog.
    pub fn reset_registry(&mut self)
        ensures
            final(self)@.entries.len() == 0,
            final(self)@.palettes.len() == 0,
            !final(self)@.initialized,
            final(self)@.embedded == old(self)@.embedded,
            catalog_inv(final(self)@),
    {
        let embedded = self.embedded;
        *self = Self::new(embedded);
    }

    /// Whether the embedded themes were registered.
    pub fn is_initialized(&self) -> (r: bool)
        ensures
            r == self@.initialized,
    {
        self.initialized
    }

    fn entry_position(&self, name: &str) -> (r: Option<usize>)
        ensures
            match r {
                Some(i) => i < self@.entries.len() && self@.entries[i as int].0 == name@,
                None => entry_index(self@.entries, name@) is None,
            },
    {
        let mut i: usize = 0;
        while i < self.entries.len()
            invariant
                i <= self.entries.len(),
                forall|k: int| 0 <= k < i ==> (#[trigger] self@.entries[k]).0 != name@,
            decreases self.entries.len() - i,
        {
            assert(self@.entries[i as int] == meta_view(self.entries@[i as int]));
            if str_eq(self.entries[i].name.as_str(), name) {
                return Some(i);
            }
            i = i + 1;
        }
        None
    }

    fn palette_position(&self, name: &str) -> (r: Option<usize>)
        ensures
            match r {
                Some(i) => i < self@.palettes.len() && self@.palettes[i as int].0 == name@,
                None => palette_index(self@.palettes, name@) is None,
            },
    {
        let mut i: usize = 0;
        while i < self.palettes.len()
            invariant
                i <= self.palettes.len(),
                forall|k: int| 0 <= k < i ==> (#[trigger] self@.palettes[k]).0 != name@,
            decreases self.palettes.len() - i,
        {
            assert(self@.palettes[i as int] == (self.palettes@[i as int].0@, self.palettes@[i as int].1));
            if str_eq(self.palettes[i].0.as_str(), name) {
                return Some(i);
            }
            i = i + 1;
        }
        None
    }

    /// Cache `palette` for theme `name`, replacing an older one.
    pub fn cache_palette(&mut self, name: &str, palette: P)
        requires
            registry_inv(old(self)@),
        ensures
            registry_inv(final(self)@),
            catalog_inv(old(self)@) ==> catalog_inv(final(self)@),
            final(self)@ == (RegistryModel { palettes: set_palette(old(self)@.palettes, name@, palette), ..old(self)@ }),
    {
        let ghost old_p = self@.palettes;
        let ghost old_e = self@.entries;
        match self.palette_position(name) {
            Some(i) => {
                proof {
                    assert(palette_index(old_p, name@) is Some);
                    let k = palette_index(old_p, name@).unwrap();
                    if k != i {
                        if k < i {
                            assert(old_p[k].0 != old_p[i as int].0);
                        } else {
                            assert(old_p[i as int].0 != old_p[k].0);
                        }
                    }
                }
                self.palettes.set(i, (to_owned(name), palette));
                assert(self@.palettes =~= old_p.update(i as int, (name@, palette)));
                assert forall|a: int, b: int|
                    0 <= a < b < self@.palettes.len() implies (#[trigger] self@.palettes[a]).0 != (
                    #[trigger] self@.palettes[b]).0 by {
                    assert(self@.palettes[a].0 == old_p[a].0);
                    assert(self@.palettes[b].0 == old_p[b].0);
                }
                assert(self@.entries == old_e);
            },
            None => {
                self.palettes.push((to_owned(name), palette));
                assert(self@.palettes =~= old_p.push((name@, palette)));
                assert forall|a: int, b: int|
                    0 <= a < b < self@.palettes.len() implies (#[trigger] self@.palettes[a]).0 != (
                    #[trigger] self@.palettes[b]).0 by {
                    if b == old_p.len() {
                        assert(self@.palettes[a] == old_p[a]);
                        if old_p[a].0 == name@ {
                            assert(palette_index(old_p, name@) is Some);
                        }
                    } else {
                        assert(self@.palettes[a] == old_p[a]);
                        assert(self@.palettes[b] == old_p[b]);
                    }
                }
                assert(self@.entries == old_e);
            },
        }
    }

    fn put_entry(&mut self, name: &str, path: Option<String>, builtin: bool)
        requires
            registry_inv(old(self)@),
        ensures
            registry_inv(final(self)@),
            final(self)@ == (RegistryModel {
                entries: set_entry(
                    old(self)@.entries,
                    (name@, theme_id_spec(name@), crate::queue_bridge::opt_view(path), builtin),
                ),
                ..old(self)@
            }),
    {
        let ghost old_e = self@.entries;
        let ghost old_p = self@.palettes;
        let meta = PiThemeMeta { name: to_owned(name), id: theme_id(name), path, builtin };
        match self.entry_position(name) {
            Some(i) => {
                proof {
                    let k = entry_index(old_e, name@).unwrap();
                    if k != i {
                        if k < i {
                            assert(old_e[k].0 != old_e[i as int].0);
                        } else {
                            assert(old_e[i as int].0 != old_e[k].0);
                        }
                    }
                }
                self.entries.set(i, meta);
                assert(self@.entries =~= old_e.update(i as int, meta_view(meta)));
                assert forall|a: int, b: int|
                    0 <= a < b < self@.entries.len() implies (#[trigger] self@.entries[a]).0 != (
                    #[trigger] self@.entries[b]).0 by {
                    assert(self@.entries[a].0 == old_e[a].0);
                    assert(self@.entries[b].0 == old_e[b].0);
                }
                assert(self@.palettes == old_p);
            },
            None => {
                self.entries.push(meta);
                assert(self@.entries =~= old_e.push(meta_view(meta)));
                assert forall|a: int, b: int|
                    0 <= a < b < self@.entries.len() implies (#[trigger] self@.entries[a]).0 != (
                    #[trigger] self@.entries[b]).0 by {
                    if b == old_e.len() {
                        assert(self@.entries[a] == old_e[a]);
                        if old_e[a].0 == name@ {
                            assert(entry_index(old_e, name@) is Some);
                        }
                    } else {
                        assert(self@.entries[a] == old_e[a]);
                        assert(self@.entries[b] == old_e[b]);
                    }
                }
                assert(self@.palettes == old_p);
            },
        }
    }

    /// Register an embedded theme: its entry unless the name is taken, and
    /// its palette in any case.
    pub fn register_builtin(&mut self, name: &str, palette: P)
        requires
            catalog_inv(old(self)@),
        ensures
            catalog_inv(final(self)@),
            final(self)@ == builtin_step(old(self)@, name@, palette),
    {
        let ghost m0 = self@;
        if self.entry_position(name).is_none() {
            self.put_entry(name, None, true);
        }
        self.cache_palette(name, palette);
        proof {
            lemma_builtin_step_inv(m0, name@, palette);
        }
    }

    /// Register the embedded themes (`dark`, `light`, `transparent`,
    /// `transparent-light`) once; later calls do nothing.
    pub fn ensure_builtins(&mut self)
        requires
            catalog_inv(old(self)@),
        ensures
            catalog_inv(final(self)@),
            final(self)@ == ensure_builtins_spec(old(self)@),
            final(self)@.initialized,
    {
        if self.initialized {
            return;
        }
        let ghost start = self@;
        let ghost bl = builtin_list(start.embedded);
        let e = self.embedded;
        assert(e == start.embedded);
        assert(builtins_upto(start, bl, 0) == start);
        assert(bl[0] == ("dark"@, e.dark));
        assert(bl[1] == ("light"@, e.light));
        assert(bl[2] == ("transparent"@, e.transparent));
        assert(bl[3] == ("transparent-light"@, e.transparent_light));
        self.register_builtin("dark", e.dark);
        assert(self@ == builtins_upto(start, bl, 1));
        self.register_builtin("light", e.light);
        assert(self@ == builtins_upto(start, bl, 2));
        self.register_builtin("transparent", e.transparent);
        assert(self@ == builtins_upto(start, bl, 3));
        self.register_builtin("transparent-light", e.transparent_light);
        assert(self@ == builtins_upto(start, bl, 4));
        let ghost before = self@;
        self.initialized = true;
        assert(self@.entries == before.entries);
        assert(self@.palettes == before.palettes);
        proof {
            lemma_ensure_inv(start);
        }
    }

    /// Register a theme file discovered at `path` whose document loaded as
    /// `loaded`: `Err(message)` when the file could not be read or parsed,
    /// else the theme's name and its palette (or why mapping failed).  The
    /// first registration of a name wins; later ones are skipped.
    pub fn register_file(&mut self, report: &mut DiscoveryReport, path: &str, loaded: Result<(String, Result<P, String>), String>)
        requires
            catalog_inv(old(self)@),
            old(self)@.initialized,
            old(report).loaded < usize::MAX,
            old(report).skipped < usize::MAX,
        ensures
            catalog_inv(final(self)@),
            final(self)@.initialized,
            (final(self)@, final(report)@) == file_step(old(self)@, old(report)@, path@, loaded),
    {
        proof {
            lemma_file_step_inv(self@, old(report)@, path@, loaded);
        }
        match loaded {
            Err(e) => {
                report.push_error(file_error(path, e.as_str()));
            },
            Ok((name, mapped)) => {
                if self.entry_position(name.as_str()).is_some() {
                    report.skipped = report.skipped + 1;
                    return;
                }
                match mapped {
                    Ok(palette) => {
                        self.put_entry(name.as_str(), Some(to_owned(path)), false);
                        self.cache_palette(name.as_str(), palette);
                        report.loaded = report.loaded + 1;
                    },
                    Err(e) => {
                        report.push_error(file_error(path, e.as_str()));
                    },
                }
            },
        }
    }
}

fn file_error(path: &str, message: &str) -> (r: String)
    ensures
        r@ == path@ + ": "@ + message@,
{
    let mut out = to_owned(path);
    push_str(&mut out, ": ");
    push_str(&mut out, message);
    out
}


impl<P: Copy> ThemeRegistry<P> {
    /// Register or refresh a theme file found again by a rescan: a changed
    /// file replaces the entry and palette of its name, except that embedded
    /// themes are never replaced by files.
    pub fn reregister_file(&mut self, report: &mut DiscoveryReport, path: &str, loaded: Result<(String, P), String>)
        requires
            catalog_inv(old(self)@),
            old(self)@.initialized,
            old(report).loaded < usize::MAX,
            old(report).skipped < usize::MAX,
        ensures
            catalog_inv(final(self)@),
            final(self)@.initialized,
            (final(self)@, final(report)@) == refile_step(old(self)@, old(report)@, path@, loaded),
    {
        proof {
            lemma_refile_step_inv(self@, old(report)@, path@, loaded);
        }
        match loaded {
            Err(e) => {
                report.push_error(file_error(path, e.as_str()));
            },
            Ok((name, palette)) => {
                match self.entry_position(name.as_str()) {
                    Some(i) => {
                        proof {
                            let k = entry_index(self@.entries, name@).unwrap();
                            if k != i {
                                if k < i {
                                    assert(self@.entries[k].0 != self@.entries[i as int].0);
                                } else {
                                    assert(self@.entries[i as int].0 != self@.entries[k].0);
                                }
                            }
                            assert(self@.entries[i as int] == meta_view(self.entries@[i as int]));
                        }
                        if self.entries[i].builtin {
                            report.skipped = report.skipped + 1;
                            return;
                        }
                    },
                    None => {},
                }
                self.put_entry(name.as_str(), Some(to_owned(path)), false);
                self.cache_palette(name.as_str(), palette);
                report.loaded = report.loaded + 1;
            },
        }
    }

    /// The registered themes, sorted by name.
    fn sorted_entries(&self) -> (r: Vec<PiThemeMeta>)
        requires
            registry_inv(self@),
        ensures
            r@.len() == self@.entries.len(),
            forall|i: int| 0 <= i < r@.len() ==> self@.entries.contains(#[trigger] meta_view(r@[i])),
            forall|k: int| 0 <= k < self@.entries.len() ==> listed(r@, #[trigger] self@.entries[k]),
            forall|a: int, b: int| 0 <= a < b < r@.len() ==> lex_lt((#[trigger] r@[a]).name@, (#[trigger] r@[b]).name@),
    {
        let n = self.entries.len();
        let ghost es = self@.entries;
        let mut taken: Vec<bool> = Vec::new();
        while taken.len() < n
            invariant
                taken.len() <= n,
                forall|k: int| 0 <= k < taken.len() ==> !taken@[k],
            decreases n - taken.len(),
        {
            taken.push(false);
        }
        let mut out: Vec<PiThemeMeta> = Vec::new();
        let ghost mut picked: Seq<int> = Seq::empty();
        while out.len() < n
            invariant
                n == self.entries.len(),
                es == self@.entries,
                registry_inv(self@),
                taken@.len() == n,
                out@.len() <= n,
                out@.len() == picked.len(),
                picked.no_duplicates(),
                forall|k: int| 0 <= k < picked.len() ==> 0 <= #[trigger] picked[k] < n,
                forall|k: int| 0 <= k < picked.len() ==> meta_view(#[trigger] out@[k]) == es[picked[k]],
                forall|x: int| 0 <= x < n ==> (#[trigger] taken@[x] <==> picked.contains(x)),
                forall|a: int, b: int| 0 <= a < b < out@.len() ==> lex_lt((#[trigger] out@[a]).name@, (#[trigger] out@[b]).name@),
                forall|k: int, x: int| 0 <= k < out@.len() && 0 <= x < n && !taken@[x] ==> lex_lt(
                    (#[trigger] out@[k]).name@,
                    #[trigger] es[x].0,
                ),
            decreases n - out@.len(),
        {
            proof {
                if forall|x: int| 0 <= x < n ==> taken@[x] {
                    let all = Seq::new(n as nat, |x: int| x);
                    assert forall|i: int| 0 <= i < all.len() implies picked.contains(#[trigger] all[i]) by {
                        assert(taken@[i]);
                    }
                    lemma_pigeonhole(all, picked);
                    assert(false);
                }
            }
            let mut best: usize = n;
            let mut j: usize = 0;
            while j < n
                invariant
                    n == self.entries.len(),
                    es == self@.entries,
                    registry_inv(self@),
                    taken@.len() == n,
                    j <= n,
                    best == n || (best < j && !taken@[best as int]),
                    best == n ==> forall|x: int| 0 <= x < j ==> taken@[x],
                    best < n ==> forall|x: int| 0 <= x < j && !taken@[x] && x != best ==> lex_lt(
                        es[best as int].0,
                        #[trigger] es[x].0,
                    ),
                decreases n - j,
            {
                if !taken[j] {
                    assert(es[j as int] == meta_view(self.entries@[j as int]));
                    if best == n {
                        best = j;
                    } else {
                        assert(es[best as int] == meta_view(self.entries@[best as int]));
                        let smaller = lex_lt_exec(self.entries[j].name.as_str(), self.entries[best].name.as_str());
                        proof {
                            if best < j {
                                assert(es[best as int].0 != es[j as int].0);
                            }
                            lemma_lex_total(es[j as int].0, es[best as int].0);
                            if smaller {
                                assert forall|x: int| 0 <= x < j && !taken@[x] && x != j implies lex_lt(
                                    es[j as int].0,
                                    #[trigger] es[x].0,
                                ) by {
                                    if x != best {
                                        lemma_lex_transitive(es[j as int].0, es[best as int].0, es[x].0);
                                    }
                                }
                            }
                        }
                        if smaller {
                            best = j;
                        }
                    }
                }
                j = j + 1;
            }
            assert(best < n);
            let m = self.entries[best].clone_meta();
            proof {
                assert(es[best as int] == meta_view(self.entries@[best as int]));
                assert(!picked.contains(best as int));
            }
            let ghost before = out@;
            out.push(m);
            taken.set(best, true);
            proof {
                let old_picked = picked;
                picked = picked.push(best as int);
                assert forall|a: int, b: int| 0 <= a < b < picked.len() implies picked[a] != picked[b] by {
                    if b == old_picked.len() {
                        assert(old_picked.contains(old_picked[a]));
                    }
                }
                assert forall|x: int| 0 <= x < n implies (#[trigger] taken@[x] <==> picked.contains(x)) by {
                    if x == best {
                        assert(picked[picked.len() - 1] == x);
                    } else {
                        if picked.contains(x) {
                            let k = choose|k: int| 0 <= k < picked.len() && picked[k] == x;
                            assert(old_picked.contains(x));
                        }
                        if old_picked.contains(x) {
                            let k = choose|k: int| 0 <= k < old_picked.len() && old_picked[k] == x;
                            assert(picked[k] == x);
                        }
                    }
                }
                assert forall|k: int| 0 <= k < picked.len() implies meta_view(#[trigger] out@[k]) == es[picked[k]] by {
                    if k < before.len() {
                        assert(out@[k] == before[k]);
                    }
                }
                assert forall|a: int, b: int| 0 <= a < b < out@.len() implies lex_lt((#[trigger] out@[a]).name@, (#[trigger] out@[b]).name@) by {
                    assert(out@[a] == before[a]);
                    if b < before.len() {
                        assert(out@[b] == before[b]);
                    } else {
                        assert(out@[b].name@ == es[best as int].0);
                    }
                }
                assert forall|k: int, x: int| 0 <= k < out@.len() && 0 <= x < n && !taken@[x] implies lex_lt(
                    (#[trigger] out@[k]).name@,
                    #[trigger] es[x].0,
                ) by {
                    if k < before.len() {
                        assert(out@[k] == before[k]);
                    } else {
                        assert(out@[k].name@ == es[best as int].0);
                    }
                }
            }
        }
        proof {
            assert forall|k: int| 0 <= k < self@.entries.len() implies listed(out@, #[trigger] self@.entries[k]) by {
                if !taken@[k] {
                    let all = Seq::new(n as nat, |x: int| x);
                    assert(picked.len() == n);
                    // every picked index is distinct and below n, so all of them appear
                    let missing = k;
                    assert(!picked.contains(missing));
                    let without = all.remove(missing);
                    assert forall|i: int| 0 <= i < picked.len() implies without.contains(#[trigger] picked[i]) by {
                        let v = picked[i];
                        if v < missing {
                            assert(without[v] == v);
                        } else {
                            assert(v != missing);
                            assert(without[v - 1] == v);
                        }
                    }
                    lemma_pigeonhole(picked, without);
                    assert(false);
                }
                let i = choose|i: int| 0 <= i < picked.len() && picked[i] == k;
                assert(meta_view(out@[i]) == es[k]);
            }
            assert forall|i: int| 0 <= i < out@.len() implies es.contains(#[trigger] meta_view(out@[i])) by {
                assert(es[picked[i]] == meta_view(out@[i]));
            }
        }
        out
    }

    /// Where the palette of theme setting `id` is, among the themes
    /// registered now.
    fn lookup_palette(&self, id: &str) -> (r: PaletteLookup<P>)
        requires
            registry_inv(self@),
        ensures
            match parse_id_spec(id@) {
                None => r matches PaletteLookup::Failed(LoadError::InvalidName(n)) && n@ == id@,
                Some(name) => match palette_index(self@.palettes, name) {
                    Some(i) => r matches PaletteLookup::Cached(cid, p) && cid@ == theme_id_spec(name)
                        && p == self@.palettes[i].1,
                    None => match entry_index(self@.entries, name) {
                        Some(i) if self@.entries[i].2 is Some => r matches PaletteLookup::Reload(path)
                            && Some(path@) == self@.entries[i].2,
                        _ => r matches PaletteLookup::Failed(LoadError::InvalidName(n)) && n@
                            == "unknown Pi theme: "@ + id@,
                    },
                },
            },
    {
        let name = match parse_pi_theme_id(id) {
            Some(n) => n,
            None => return PaletteLookup::Failed(LoadError::InvalidName(to_owned(id))),
        };
        match self.palette_position(name.as_str()) {
            Some(i) => {
                proof {
                    let k = palette_index(self@.palettes, name@).unwrap();
                    if k != i {
                        if k < i {
                            assert(self@.palettes[k].0 != self@.palettes[i as int].0);
                        } else {
                            assert(self@.palettes[i as int].0 != self@.palettes[k].0);
                        }
                    }
                    assert(self@.palettes[i as int] == (self.palettes@[i as int].0@, self.palettes@[i as int].1));
                }
                return PaletteLookup::Cached(theme_id(name.as_str()), self.palettes[i].1);
            },
            None => {},
        }
        match self.entry_position(name.as_str()) {
            Some(i) => {
                proof {
                    let k = entry_index(self@.entries, name@).unwrap();
                    if k != i {
                        if k < i {
                            assert(self@.entries[k].0 != self@.entries[i as int].0);
                        } else {
                            assert(self@.entries[i as int].0 != self@.entries[k].0);
                        }
                    }
                    assert(self@.entries[i as int] == meta_view(self.entries@[i as int]));
                }
                match &self.entries[i].path {
                    Some(p) => return PaletteLookup::Reload(p.clone()),
                    None => {},
                }
            },
            None => {},
        }
        let mut msg = String::from_str("unknown Pi theme: ");
        push_str(&mut msg, id);
        PaletteLookup::Failed(LoadError::InvalidName(msg))
    }
}

impl<P: Copy> ThemeRegistry<P> {
    /// All registered themes, sorted by name, after registering the
    /// embedded themes if that was not done yet.
    pub fn list_themes(&mut self) -> (r: Vec<PiThemeMeta>)
        requires
            catalog_inv(old(self)@),
        ensures
            catalog_inv(final(self)@),
            final(self)@ == ensure_builtins_spec(old(self)@),
            final(self)@.initialized,
            forall|i: int|
                0 <= i < r@.len() ==> (#[trigger] r@[i]).id@ == theme_id_spec(r@[i].name@) && (r@[i].builtin
                    <==> r@[i].path is None),
            forall|k: int|
                0 <= k < 4 ==> exists|i: int|
                    0 <= i < r@.len() && (#[trigger] r@[i]).name@ == (#[trigger] builtin_entries()[k]).0 && r@[i].builtin,
            r@.len() == final(self)@.entries.len(),
            forall|i: int| 0 <= i < r@.len() ==> final(self)@.entries.contains(#[trigger] meta_view(r@[i])),
            forall|k: int| 0 <= k < final(self)@.entries.len() ==> listed(r@, #[trigger] final(self)@.entries[k]),
            forall|a: int, b: int| 0 <= a < b < r@.len() ==> lex_lt((#[trigger] r@[a]).name@, (#[trigger] r@[b]).name@),
    {
        self.ensure_builtins();
        let r = self.sorted_entries();
        proof {
            let es = self@.entries;
            assert forall|i: int| 0 <= i < r@.len() implies (#[trigger] r@[i]).id@ == theme_id_spec(r@[i].name@) && (
            r@[i].builtin <==> r@[i].path is None) by {
                assert(es.contains(meta_view(r@[i])));
                let j = choose|j: int| 0 <= j < es.len() && es[j] == meta_view(r@[i]);
                assert(es[j].1 == theme_id_spec(es[j].0));
            }
            assert forall|k: int| 0 <= k < 4 implies exists|i: int|
                0 <= i < r@.len() && (#[trigger] r@[i]).name@ == (#[trigger] builtin_entries()[k]).0 && r@[i].builtin by {
                assert(has_builtin_entry(es, builtin_entries()[k].0));
                let j = choose|j: int| 0 <= j < es.len() && (#[trigger] es[j]).0 == builtin_entries()[k].0 && es[j].3;
                assert(listed(r@, es[j]));
                let i = choose|i: int| 0 <= i < r@.len() && meta_view(r@[i]) == es[j];
                assert(r@[i].name@ == builtin_entries()[k].0 && r@[i].builtin);
            }
        }
        r
    }

    /// Find the palette of theme setting `id`, after registering the
    /// embedded themes if that was not done yet: cached, to be reloaded from
    /// the theme's file, or an error for a setting that names no registered
    /// theme.
    pub fn load_palette(&mut self, id: &str) -> (r: PaletteLookup<P>)
        requires
            catalog_inv(old(self)@),
        ensures
            catalog_inv(final(self)@),
            final(self)@ == ensure_builtins_spec(old(self)@),
            match parse_id_spec(id@) {
                None => r matches PaletteLookup::Failed(LoadError::InvalidName(n)) && n@ == id@,
                Some(name) => match palette_index(final(self)@.palettes, name) {
                    Some(i) => r matches PaletteLookup::Cached(cid, p) && cid@ == theme_id_spec(name)
                        && p == final(self)@.palettes[i].1,
                    None => match entry_index(final(self)@.entries, name) {
                        Some(i) if final(self)@.entries[i].2 is Some => r matches PaletteLookup::Reload(path)
                            && Some(path@) == final(self)@.entries[i].2,
                        _ => r matches PaletteLookup::Failed(LoadError::InvalidName(n)) && n@
                            == "unknown Pi theme: "@ + id@,
                    },
                },
            },
    {
        self.ensure_builtins();
        self.lookup_palette(id)
    }
}

impl PiThemeMeta {
    /// A copy of the entry.
    pub fn clone_meta(&self) -> (r: PiThemeMeta)
        ensures
            meta_view(r) == meta_view(*self),
    {
        PiThemeMeta {
            name: self.name.clone(),
            id: self.id.clone(),
            path: match &self.path {
                Some(p) => Some(p.clone()),
                None => None,
            },
            builtin: self.builtin,
        }
    }
}

/// Whether `e` is the entry of some theme of `r`.
pub open spec fn listed(r: Seq<PiThemeMeta>, e: (Seq<char>, Seq<char>, Option<Seq<char>>, bool)) -> bool {
    exists|i: int| 0 <= i < r.len() && meta_view(r[i]) == e
}

/// Where the palette of a theme setting is.
pub enum PaletteLookup<P> {
    /// Cached: the canonical id and the palette.
    Cached(String, P),
    /// Registered from this file, whose palette must be loaded again.
    Reload(String),
    /// No registered theme.
    Failed(LoadError),
}


impl<P: Copy> ThemeRegistry<P> {
    /// Clear the catalog (for tests).
    pub fn reset_for_test(&mut self)
        ensures
            final(self)@.entries.len() == 0,
            final(self)@.palettes.len() == 0,
            !final(self)@.initialized,
            final(self)@.embedded == old(self)@.embedded,
            catalog_inv(final(self)@),
    {
        self.reset_registry();
    }

    /// First discovery: register the embedded themes, then each discovered
    /// file in order (`(path, load result)`); a name already registered
    /// keeps its first registration.
    pub fn init_discovery(&mut self, files: Vec<(String, Result<(String, Result<P, String>), String>)>) -> (report: DiscoveryReport)
        requires
            catalog_inv(old(self)@),
            old(self)@.entries.len() + 4 + files.len() < usize::MAX,
        ensures
            catalog_inv(final(self)@),
            (final(self)@, report@) == init_discovery_spec(old(self)@, files@),
    {
        proof {
            lemma_builtins_len(self@, builtin_list(self@.embedded), 4);
        }
        self.ensure_builtins();
        let ghost m0 = self@;
        let mut report = DiscoveryReport::new();
        report.loaded = self.entries.len();
        assert(report@.errors =~= Seq::<Seq<char>>::empty());
        let mut i: usize = 0;
        while i < files.len()
            invariant
                i <= files.len(),
                catalog_inv(self@),
                self@.initialized,
                (self@, report@) == files_upto(
                    m0,
                    ReportModel { loaded: m0.entries.len(), ..empty_report() },
                    files@,
                    i as int,
                ),
                report.loaded == self@.entries.len(),
                report.skipped + report.errors@.len() <= i,
                self@.entries.len() + files.len() - i < usize::MAX,
            decreases files.len() - i,
        {
            let (path, loaded) = clone_file_result(&files[i]);
            self.register_file(&mut report, path.as_str(), loaded);
            assert(report@.errors.len() == report.errors@.len());
            i = i + 1;
        }
        report
    }

    /// Rediscovery after `/reload`: register the embedded themes if needed,
    /// then register or refresh each discovered file (`(path, load
    /// result)`), never replacing an embedded theme.
    pub fn rediscover(&mut self, files: Vec<(String, Result<(String, P), String>)>) -> (report: DiscoveryReport)
        requires
            catalog_inv(old(self)@),
            old(self)@.entries.len() + 4 + files.len() < usize::MAX,
        ensures
            catalog_inv(final(self)@),
            (final(self)@, report@) == rediscover_spec(old(self)@, files@),
    {
        self.ensure_builtins();
        let ghost m0 = self@;
        let mut report = DiscoveryReport::new();
        assert(report@.errors =~= Seq::<Seq<char>>::empty());
        let mut i: usize = 0;
        while i < files.len()
            invariant
                i <= files.len(),
                catalog_inv(self@),
                self@.initialized,
                (self@, report@) == refiles_upto(m0, empty_report(), files@, i as int),
                report.loaded <= i,
                report.skipped <= i,
            decreases files.len() - i,
        {
            let path = files[i].0.clone();
            let loaded: Result<(String, P), String> = match &files[i].1 {
                Ok((n, p)) => Ok((n.clone(), *p)),
                Err(e) => Err(e.clone()),
            };
            assert(loaded == files@[i as int].1);
            self.reregister_file(&mut report, path.as_str(), loaded);
            i = i + 1;
        }
        let ghost r1 = report@;
        report.loaded = self.entries.len();
        assert(report@ =~= ReportModel { loaded: self@.entries.len(), ..r1 });
        report
    }
}


/// At first discovery the first registration of a name wins: registering a
/// file never changes a theme already in the catalog, and adds at most one.
pub proof fn law_first_registration_wins<P>(
    m: RegistryModel<P>,
    r: ReportModel,
    path: Seq<char>,
    loaded: Result<(String, Result<P, String>), String>,
)
    ensures
        ({
            let after = file_step(m, r, path, loaded).0;
            &&& m.entries.len() <= after.entries.len() <= m.entries.len() + 1
            &&& forall|i: int| 0 <= i < m.entries.len() ==> after.entries[i] == m.entries[i]
        }),
{
}

/// A rescan never replaces an embedded theme: every builtin entry stays as
/// it was, whatever file is registered or refreshed.
pub proof fn law_builtins_never_replaced<P>(
    m: RegistryModel<P>,
    r: ReportModel,
    path: Seq<char>,
    loaded: Result<(String, P), String>,
)
    requires
        registry_inv(m),
    ensures
        ({
            let after = refile_step(m, r, path, loaded).0;
            forall|i: int| 0 <= i < m.entries.len() && (#[trigger] m.entries[i]).3 ==> after.entries[i] == m.entries[i]
        }),
{
    if let Ok((name, palette)) = loaded {
        if let Some(k) = entry_index(m.entries, name@) {
            assert forall|i: int| 0 <= i < m.entries.len() && (#[trigger] m.entries[i]).3 implies refile_step(
                m,
                r,
                path,
                loaded,
            ).0.entries[i] == m.entries[i] by {
                if !m.entries[k].3 && i == k {
                    assert(m.entries[k].0 == name@);
                }
            }
        }
    }
}

fn clone_file_result<P: Copy>(f: &(String, Result<(String, Result<P, String>), String>)) -> (r: (String, Result<(String, Result<P, String>), String>))
    ensures
        r == *f,
{
    let loaded = match &f.1 {
        Ok((n, m)) => Ok((
            n.clone(),
            match m {
                Ok(p) => Ok(*p),
                Err(e) => Err(e.clone()),
            },
        )),
        Err(e) => Err(e.clone()),
    };
    (f.0.clone(), loaded)
}

proof fn lemma_fresh_step<P>(m: RegistryModel<P>, n: int)
    requires
        0 <= n < 4,
        builtins_upto(m, builtin_list(m.embedded), n).entries == builtin_entries().take(n),
        builtins_upto(m, builtin_list(m.embedded), n).palettes == builtin_list(m.embedded).take(n),
    ensures
        builtins_upto(m, builtin_list(m.embedded), n + 1).entries == builtin_entries().take(n + 1),
        builtins_upto(m, builtin_list(m.embedded), n + 1).palettes == builtin_list(m.embedded).take(n + 1),
{
    lemma_builtin_names_distinct();
    let bl = builtin_list(m.embedded);
    let be = builtin_entries();
    assert forall|k: int| 0 <= k < 4 implies (#[trigger] bl[k]).0 == be[k].0 && be[k] == (bl[k].0, theme_id_spec(bl[k].0), None::<Seq<char>>, true) by {}
    let prev = builtins_upto(m, bl, n);
    assert(entry_index(prev.entries, bl[n].0) is None) by {
        if exists|i: int| 0 <= i < prev.entries.len() && (#[trigger] prev.entries[i]).0 == bl[n].0 {
            let i = choose|i: int| 0 <= i < prev.entries.len() && (#[trigger] prev.entries[i]).0 == bl[n].0;
            assert(prev.entries[i] == be[i]);
        }
    }
    assert(palette_index(prev.palettes, bl[n].0) is None) by {
        if exists|i: int| 0 <= i < prev.palettes.len() && (#[trigger] prev.palettes[i]).0 == bl[n].0 {
            let i = choose|i: int| 0 <= i < prev.palettes.len() && (#[trigger] prev.palettes[i]).0 == bl[n].0;
            assert(prev.palettes[i] == bl[i]);
        }
    }
    assert(be.take(n).push(be[n]) =~= be.take(n + 1));
    assert(bl.take(n).push(bl[n]) =~= bl.take(n + 1));
}

proof fn lemma_registered_step<P>(m: RegistryModel<P>, n: int)
    requires
        0 <= n < 4,
        forall|k: int| 0 <= k < n ==> entry_index(builtins_upto(m, builtin_list(m.embedded), n).entries, #[trigger] builtin_list(m.embedded)[k].0) is Some,
    ensures
        forall|k: int| 0 <= k < n + 1 ==> entry_index(builtins_upto(m, builtin_list(m.embedded), n + 1).entries, #[trigger] builtin_list(m.embedded)[k].0) is Some,
{
    let bl = builtin_list(m.embedded);
    let prev = builtins_upto(m, bl, n);
    let next = builtins_upto(m, bl, n + 1);
    assert forall|k: int| 0 <= k < n + 1 implies entry_index(next.entries, #[trigger] bl[k].0) is Some by {
        if k < n {
            let i = entry_index(prev.entries, bl[k].0).unwrap();
            assert(next.entries[i] == prev.entries[i]);
        } else {
            if entry_index(prev.entries, bl[n].0) is None {
                assert(next.entries[prev.entries.len() as int].0 == bl[n].0);
            }
        }
    }
}

proof fn lemma_lex_prefix(a: Seq<char>, b: Seq<char>)
    requires
        a.len() < b.len(),
        b.subrange(0, a.len() as int) =~= a,
    ensures
        lex_lt(a, b),
    decreases a.len(),
{
    if a.len() > 0 {
        assert(a[0] == b[0]);
        assert(b.drop_first().subrange(0, a.drop_first().len() as int) =~= a.drop_first());
        lemma_lex_prefix(a.drop_first(), b.drop_first());
    }
}

proof fn lemma_builtin_names_distinct()
    ensures
        forall|a: int, b: int| 0 <= a < b < 4 ==> builtin_entries()[a].0 != builtin_entries()[b].0,
        forall|a: int, b: int| 0 <= a < b < 4 ==> lex_lt(builtin_entries()[a].0, builtin_entries()[b].0),
{
    reveal_strlit("dark");
    reveal_strlit("light");
    reveal_strlit("transparent");
    reveal_strlit("transparent-light");
    let d = "dark"@;
    let l = "light"@;
    let t = "transparent"@;
    let tl = "transparent-light"@;
    assert(d[0] == 'd' && l[0] == 'l' && t[0] == 't' && tl[0] == 't');
    assert(t.len() == 11 && tl.len() == 17);
    assert(lex_lt(d, l)) by {
        reveal_with_fuel(lex_lt, 2);
    }
    assert(lex_lt(d, t)) by {
        reveal_with_fuel(lex_lt, 2);
    }
    assert(lex_lt(d, tl)) by {
        reveal_with_fuel(lex_lt, 2);
    }
    assert(lex_lt(l, t)) by {
        reveal_with_fuel(lex_lt, 2);
    }
    assert(lex_lt(l, tl)) by {
        reveal_with_fuel(lex_lt, 2);
    }
    assert(tl.subrange(0, 11) =~= t);
    assert(lex_lt(t, tl)) by {
        lemma_lex_prefix(t, tl);
    }
}

/// Registering the embedded themes in a cleared catalog gives exactly the
/// four embedded themes, in name order (`dark`, `light`, `transparent`,
/// `transparent-light`), each cached with its embedded palette.
pub proof fn law_fresh_catalog_holds_builtins<P>(m: RegistryModel<P>)
    requires
        m.entries.len() == 0,
        m.palettes.len() == 0,
        !m.initialized,
    ensures
        ensure_builtins_spec(m).entries == builtin_entries(),
        ensure_builtins_spec(m).palettes == builtin_list(m.embedded),
        forall|k: int| 0 <= k < 4 ==> palette_index(ensure_builtins_spec(m).palettes, #[trigger] builtin_list(m.embedded)[k].0) == Some(k),
        forall|a: int, b: int| 0 <= a < b < 4 ==> lex_lt(builtin_entries()[a].0, builtin_entries()[b].0),
{
    lemma_builtin_names_distinct();
    let bl = builtin_list(m.embedded);
    let be = builtin_entries();
    assert forall|k: int| 0 <= k < 4 implies (#[trigger] bl[k]).0 == be[k].0 && be[k] == (bl[k].0, theme_id_spec(bl[k].0), None::<Seq<char>>, true) by {}
    assert(be.take(0) =~= Seq::<(Seq<char>, Seq<char>, Option<Seq<char>>, bool)>::empty());
    assert(bl.take(0) =~= Seq::<(Seq<char>, P)>::empty());
    assert(builtins_upto(m, bl, 0) == m);
    assert(m.entries =~= be.take(0));
    assert(m.palettes =~= bl.take(0));
    lemma_fresh_step(m, 0);
    lemma_fresh_step(m, 1);
    lemma_fresh_step(m, 2);
    lemma_fresh_step(m, 3);
    assert(be.take(4) =~= be);
    assert(bl.take(4) =~= bl);
    let ps = ensure_builtins_spec(m).palettes;
    assert forall|k: int| 0 <= k < 4 implies palette_index(ps, #[trigger] bl[k].0) == Some(k) by {
        assert(ps[k].0 == bl[k].0);
        let j = palette_index(ps, bl[k].0).unwrap();
        if j != k {
            if j < k {
                assert(be[j].0 != be[k].0);
            } else {
                assert(be[k].0 != be[j].0);
            }
        }
    }
}

/// Registering the embedded themes puts all four names in the catalog,
/// whatever it held before: a name that was free gets its embedded entry.
pub proof fn law_builtins_registered<P>(m: RegistryModel<P>)
    requires
        !m.initialized,
    ensures
        ensure_builtins_spec(m).initialized,
        forall|k: int| 0 <= k < 4 ==> entry_index(ensure_builtins_spec(m).entries, #[trigger] builtin_entries()[k].0) is Some,
{
    let bl = builtin_list(m.embedded);
    lemma_registered_step(m, 0);
    lemma_registered_step(m, 1);
    lemma_registered_step(m, 2);
    lemma_registered_step(m, 3);
    assert forall|k: int| 0 <= k < 4 implies (#[trigger] builtin_entries()[k]).0 == bl[k].0 by {}
}


proof fn lemma_builtin_step_inv<P>(m: RegistryModel<P>, name: Seq<char>, palette: P)
    requires
        entries_wf(m),
        builtins_present(m),
    ensures
        entries_wf(builtin_step(m, name, palette)),
        builtins_present(builtin_step(m, name, palette)),
        builtin_step(m, name, palette).initialized == m.initialized,
{
    let m2 = builtin_step(m, name, palette);
    if m.initialized {
        assert forall|k: int| 0 <= k < 4 implies has_builtin_entry(m2.entries, #[trigger] builtin_entries()[k].0) by {
            assert(has_builtin_entry(m.entries, builtin_entries()[k].0));
            let i = choose|i: int|
                0 <= i < m.entries.len() && (#[trigger] m.entries[i]).0 == builtin_entries()[k].0 && m.entries[i].3;
            assert(m2.entries[i] == m.entries[i]);
        }
    }
}

proof fn lemma_builtins_upto_inv<P>(m: RegistryModel<P>, bl: Seq<(Seq<char>, P)>, n: int)
    requires
        entries_wf(m),
        builtins_present(m),
    ensures
        entries_wf(builtins_upto(m, bl, n)),
        builtins_present(builtins_upto(m, bl, n)),
        builtins_upto(m, bl, n).initialized == m.initialized,
        builtins_upto(m, bl, n).embedded == m.embedded,
    decreases n,
{
    if n > 0 {
        lemma_builtins_upto_inv(m, bl, n - 1);
        lemma_builtin_step_inv(builtins_upto(m, bl, n - 1), bl[n - 1].0, bl[n - 1].1);
    }
}

proof fn lemma_ensure_inv<P>(m: RegistryModel<P>)
    requires
        entries_wf(m),
        builtins_present(m),
    ensures
        entries_wf(ensure_builtins_spec(m)),
        builtins_present(ensure_builtins_spec(m)),
        ensure_builtins_spec(m).initialized,
{
    if !m.initialized {
        let bl = builtin_list(m.embedded);
        lemma_builtins_upto_inv(m, bl, 4);
        let m1 = builtins_upto(m, bl, 4);
        let m2 = ensure_builtins_spec(m);
        law_builtins_registered(m);
        assert forall|k: int| 0 <= k < 4 implies has_builtin_entry(m2.entries, #[trigger] builtin_entries()[k].0) by {
            let name = builtin_entries()[k].0;
            assert(entry_index(m2.entries, name) is Some);
            let i = choose|i: int| 0 <= i < m2.entries.len() && (#[trigger] m2.entries[i]).0 == name;
            assert(m1.entries[i].3);
        }
    }
}

proof fn lemma_file_step_inv<P>(
    m: RegistryModel<P>,
    r: ReportModel,
    path: Seq<char>,
    loaded: Result<(String, Result<P, String>), String>,
)
    requires
        entries_wf(m),
        builtins_present(m),
        m.initialized,
    ensures
        entries_wf(file_step(m, r, path, loaded).0),
        builtins_present(file_step(m, r, path, loaded).0),
        file_step(m, r, path, loaded).0.initialized,
{
    let m2 = file_step(m, r, path, loaded).0;
    assert forall|k: int| 0 <= k < 4 implies has_builtin_entry(m2.entries, #[trigger] builtin_entries()[k].0) by {
        assert(has_builtin_entry(m.entries, builtin_entries()[k].0));
        let i = choose|i: int|
            0 <= i < m.entries.len() && (#[trigger] m.entries[i]).0 == builtin_entries()[k].0 && m.entries[i].3;
        assert(m2.entries[i] == m.entries[i]);
    }
}

proof fn lemma_refile_step_inv<P>(
    m: RegistryModel<P>,
    r: ReportModel,
    path: Seq<char>,
    loaded: Result<(String, P), String>,
)
    requires
        entries_wf(m),
        builtins_present(m),
        m.initialized,
    ensures
        entries_wf(refile_step(m, r, path, loaded).0),
        builtins_present(refile_step(m, r, path, loaded).0),
        refile_step(m, r, path, loaded).0.initialized,
{
    let m2 = refile_step(m, r, path, loaded).0;
    if let Ok((name, palette)) = loaded {
        if let Some(j) = entry_index(m.entries, name@) {
            assert(m.entries[j].0 == name@);
        }
    }
    assert forall|k: int| 0 <= k < 4 implies has_builtin_entry(m2.entries, #[trigger] builtin_entries()[k].0) by {
        assert(has_builtin_entry(m.entries, builtin_entries()[k].0));
        let i = choose|i: int|
            0 <= i < m.entries.len() && (#[trigger] m.entries[i]).0 == builtin_entries()[k].0 && m.entries[i].3;
        assert(m2.entries[i] == m.entries[i]);
    }
}

/// Whatever the catalog held, registering the embedded themes leaves it
/// initialized and holding the four embedded entries `(name, pi:<name>, no
/// file, embedded)` for `dark`, `light`, `transparent` and
/// `transparent-light`; registering them again changes nothing.
pub proof fn law_builtins_registered_in_any_state<P>(m: RegistryModel<P>)
    requires
        entries_wf(m),
        builtins_present(m),
    ensures
        ensure_builtins_spec(m).initialized,
        forall|k: int| 0 <= k < 4 ==> ensure_builtins_spec(m).entries.contains(#[trigger] builtin_entries()[k]),
        ensure_builtins_spec(ensure_builtins_spec(m)) == ensure_builtins_spec(m),
{
    lemma_ensure_inv(m);
    let m2 = ensure_builtins_spec(m);
    assert forall|k: int| 0 <= k < 4 implies m2.entries.contains(#[trigger] builtin_entries()[k]) by {
        assert(has_builtin_entry(m2.entries, builtin_entries()[k].0));
        let i = choose|i: int|
            0 <= i < m2.entries.len() && (#[trigger] m2.entries[i]).0 == builtin_entries()[k].0 && m2.entries[i].3;
        assert(m2.entries[i] == builtin_entries()[k]);
    }
}

/// A theme setting that names a Pi theme names a non-empty theme whose id
/// is the setting itself, trimmed.
pub proof fn law_parsed_id_round_trip(id: Seq<char>)
    requires
        parse_id_spec(id) is Some,
    ensures
        parse_id_spec(id).unwrap().len() > 0,
        theme_id_spec(parse_id_spec(id).unwrap()) == trim(id),
{
    reveal_strlit("pi:");
    let t = trim(id);
    assert(t =~= t.take(3) + t.skip(3));
}


/// The hex digit for `x < 16`: `0`–`9`, then `a`–`f` (or `A`–`F`).
pub open spec fn hex_digit_char(x: u8, upper: bool) -> char {
    if x < 10 {
        ((48 + x) as u32) as char
    } else if upper {
        ((55 + x) as u32) as char
    } else {
        ((87 + x) as u32) as char
    }
}

proof fn lemma_hex_digit_char(x: u8, upper: bool)
    requires
        x < 16,
    ensures
        hex_value(hex_digit_char(x, upper)) == Some(x),
        (hex_digit_char(x, upper) as u32) < 128,
        hex_digit_char(x, upper) != '#',
        hex_digit_char(x, upper) != '+',
        !crate::text::is_ws(hex_digit_char(x, upper)),
{
}

/// Hex colors read digit by digit in base 16: writing six numbers below
/// 16 as hex digits (either case) after a `#` gives the color whose red,
/// green and blue are `16 * first + second` of each pair; in particular
/// each decimal digit `d` counts as `d`.
pub proof fn law_hex_colors_are_base16(d: Seq<u8>, upper: bool)
    requires
        d.len() == 6,
        forall|i: int| 0 <= i < 6 ==> #[trigger] d[i] < 16,
    ensures
        hex_spec(
            seq![
                '#',
                hex_digit_char(d[0], upper),
                hex_digit_char(d[1], upper),
                hex_digit_char(d[2], upper),
                hex_digit_char(d[3], upper),
                hex_digit_char(d[4], upper),
                hex_digit_char(d[5], upper),
            ],
        ) == Some(((16 * d[0] + d[1]) as u8, (16 * d[2] + d[3]) as u8, (16 * d[4] + d[5]) as u8)),
{
    let c = seq![
        hex_digit_char(d[0], upper),
        hex_digit_char(d[1], upper),
        hex_digit_char(d[2], upper),
        hex_digit_char(d[3], upper),
        hex_digit_char(d[4], upper),
        hex_digit_char(d[5], upper),
    ];
    let s = seq!['#'] + c;
    assert(s =~= seq![
        '#',
        hex_digit_char(d[0], upper),
        hex_digit_char(d[1], upper),
        hex_digit_char(d[2], upper),
        hex_digit_char(d[3], upper),
        hex_digit_char(d[4], upper),
        hex_digit_char(d[5], upper),
    ]);
    lemma_hex_digit_char(d[0], upper);
    lemma_hex_digit_char(d[1], upper);
    lemma_hex_digit_char(d[2], upper);
    lemma_hex_digit_char(d[3], upper);
    lemma_hex_digit_char(d[4], upper);
    lemma_hex_digit_char(d[5], upper);
    assert(!crate::text::is_ws(s[0]));
    assert(crate::text::trim_start(s) == s);
    assert(s.last() == c[5]);
    assert(crate::text::trim_end(s) == s);
    assert(trim(s) == s);
    assert(s.drop_first() =~= c);
    assert(strip_hashes(c) == c);
    assert(strip_hashes(s) == c);
    assert(hex_digits(s) == c);
    assert(all_ascii(c));
}

} // verus!
