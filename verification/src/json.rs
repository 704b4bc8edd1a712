//! JSON values as the adapter's logic reads them, and typed field access.
use crate::text::str_eq;
use vstd::prelude::*;

verus! {

/// A JSON number, held as the readings that the logic makes of it.
#[derive(Debug, Clone)]
pub struct JsonNumber {
    /// The value, when it is an integer in `0..=u64::MAX`.
    pub as_u64: Option<u64>,
    /// The value, when it is an integer in the range of `i64`.
    pub as_i64: Option<i64>,
    /// The value rounded to the nearest integer (halves away from zero,
    /// saturating at `u64::MAX`), when it is not negative.
    pub rounded: Option<u64>,
    /// The number's JSON text.
    pub text: String,
}

/// A JSON value.  Object members keep their order; keys are unique.
#[derive(Debug)]
pub enum Json {
    Null,
    Bool(bool),
    Number(JsonNumber),
    Str(String),
    Array(Vec<Json>),
    Object(Vec<(String, Json)>),
}

/// The member `key` of an object's members.
pub open spec fn find_member(members: Seq<(String, Json)>, key: Seq<char>) -> Option<Json>
    decreases members.len(),
{
    if members.len() == 0 {
        None
    } else if members[0].0@ == key {
        Some(members[0].1)
    } else {
        find_member(members.drop_first(), key)
    }
}

/// `value[key]`: the member `key` when `value` is an object that has it.
pub open spec fn field(value: Json, key: Seq<char>) -> Option<Json> {
    match value {
        Json::Object(members) => find_member(members@, key),
        _ => None,
    }
}

/// The text of a value that is a string.
pub open spec fn str_of(value: Option<Json>) -> Option<Seq<char>> {
    match value {
        Some(Json::Str(s)) => Some(s@),
        _ => None,
    }
}

/// The value as `u64` (serde's `as_u64`).
pub open spec fn u64_of(value: Option<Json>) -> Option<u64> {
    match value {
        Some(Json::Number(n)) => n.as_u64,
        _ => None,
    }
}

/// The value as `i64` (serde's `as_i64`).
pub open spec fn i64_of(value: Option<Json>) -> Option<i64> {
    match value {
        Some(Json::Number(n)) => n.as_i64,
        _ => None,
    }
}

/// The value as `bool`.
pub open spec fn bool_of(value: Option<Json>) -> Option<bool> {
    match value {
        Some(Json::Bool(b)) => Some(b),
        _ => None,
    }
}

/// The first of `names` that is a string member of `value`, and its text.
pub open spec fn first_str(value: Json, names: Seq<Seq<char>>) -> Option<Seq<char>>
    decreases names.len(),
{
    if names.len() == 0 {
        None
    } else {
        match str_of(field(value, names[0])) {
            Some(s) => Some(s),
            None => first_str(value, names.drop_first()),
        }
    }
}

/// The first of `names` that is a `u64` member of `value`, and its value.
pub open spec fn first_u64(value: Json, names: Seq<Seq<char>>) -> Option<u64>
    decreases names.len(),
{
    if names.len() == 0 {
        None
    } else {
        match u64_of(field(value, names[0])) {
            Some(n) => Some(n),
            None => first_u64(value, names.drop_first()),
        }
    }
}

/// The views of a list of names.
pub open spec fn names_view(names: Seq<&str>) -> Seq<Seq<char>> {
    names.map_values(|n: &str| n@)
}

/// The view of an optional borrowed string.
pub open spec fn opt_str_view(s: Option<&str>) -> Option<Seq<char>> {
    match s {
        Some(t) => Some(t@),
        None => None,
    }
}

/// The value behind an optional reference.
pub open spec fn opt_deref(v: Option<&Json>) -> Option<Json> {
    match v {
        Some(j) => Some(*j),
        None => None,
    }
}

impl Json {
    /// `self[key]`: the member `key` of an object.
    pub fn get(&self, key: &str) -> (r: Option<&Json>)
        ensures
            opt_deref(r) == field(*self, key@),
    {
        match self {
            Json::Object(members) => {
                let mut i: usize = 0;
                assert(members@.skip(0) =~= members@);
                while i < members.len()
                    invariant
                        i <= members.len(),
                        field(*self, key@) == find_member(members@, key@),
                        find_member(members@, key@) == find_member(members@.skip(i as int), key@),
                    decreases members.len() - i,
                {
                    assert(members@.skip(i as int)[0] == members@[i as int]);
                    if str_eq(members[i].0.as_str(), key) {
                        assert(find_member(members@.skip(i as int), key@) == Some(members@[i as int].1));
                        return Some(&members[i].1);
                    }
                    assert(members@.skip(i as int).drop_first() =~= members@.skip(i + 1));
                    i = i + 1;
                }
                None
            },
            _ => None,
        }
    }

    /// The items of an array.
    pub fn as_array(&self) -> (r: Option<&Vec<Json>>)
        ensures
            match *self {
                Json::Array(v) => r == Some(&v),
                _ => r is None,
            },
    {
        match self {
            Json::Array(v) => Some(v),
            _ => None,
        }
    }

    /// The text of a string.
    pub fn as_str(&self) -> (r: Option<&str>)
        ensures
            opt_str_view(r) == str_of(Some(*self)),
    {
        match self {
            Json::Str(s) => Some(s.as_str()),
            _ => None,
        }
    }

    /// The value as `u64`.
    pub fn as_u64(&self) -> (r: Option<u64>)
        ensures
            r == u64_of(Some(*self)),
    {
        match self {
            Json::Number(n) => n.as_u64,
            _ => None,
        }
    }

    /// The value as `i64`.
    pub fn as_i64(&self) -> (r: Option<i64>)
        ensures
            r == i64_of(Some(*self)),
    {
        match self {
            Json::Number(n) => n.as_i64,
            _ => None,
        }
    }

    /// The value as `bool`.
    pub fn as_bool(&self) -> (r: Option<bool>)
        ensures
            r == bool_of(Some(*self)),
    {
        match self {
            Json::Bool(b) => Some(*b),
            _ => None,
        }
    }

    /// Whether the value is `null`.
    pub fn is_null(&self) -> (r: bool)
        ensures
            r == (*self is Null),
    {
        match self {
            Json::Null => true,
            _ => false,
        }
    }
}

/// The string member `key` of `value`.
pub fn get_str<'a>(value: &'a Json, key: &str) -> (r: Option<&'a str>)
    ensures
        opt_str_view(r) == str_of(field(*value, key@)),
{
    match value.get(key) {
        Some(v) => v.as_str(),
        None => None,
    }
}

/// The `u64` member `key` of `value`.
pub fn get_u64(value: &Json, key: &str) -> (r: Option<u64>)
    ensures
        r == u64_of(field(*value, key@)),
{
    match value.get(key) {
        Some(v) => v.as_u64(),
        None => None,
    }
}

/// The `i64` member `key` of `value`.
pub fn get_i64(value: &Json, key: &str) -> (r: Option<i64>)
    ensures
        r == i64_of(field(*value, key@)),
{
    match value.get(key) {
        Some(v) => v.as_i64(),
        None => None,
    }
}

/// The `bool` member `key` of `value`.
pub fn get_bool(value: &Json, key: &str) -> (r: Option<bool>)
    ensures
        r == bool_of(field(*value, key@)),
{
    match value.get(key) {
        Some(v) => v.as_bool(),
        None => None,
    }
}

/// The first of `names` that is a string member of `value`, and its text.
pub fn string<'a>(value: &'a Json, names: &[&str]) -> (r: Option<&'a str>)
    ensures
        opt_str_view(r) == first_str(*value, names_view(names@)),
{
    let mut i: usize = 0;
    assert(names_view(names@).skip(0) =~= names_view(names@));
    while i < names.len()
        invariant
            i <= names.len(),
            first_str(*value, names_view(names@)) == first_str(*value, names_view(names@).skip(i as int)),
        decreases names.len() - i,
    {
        assert(names_view(names@).skip(i as int)[0] == names@[i as int]@);
        match get_str(value, names[i]) {
            Some(s) => return Some(s),
            None => {},
        }
        assert(names_view(names@).skip(i as int).drop_first() =~= names_view(names@).skip(i + 1));
        i = i + 1;
    }
    None
}

/// The first of `names` that is a `u64` member of `value`, and its value.
pub fn number(value: &Json, names: &[&str]) -> (r: Option<u64>)
    ensures
        r == first_u64(*value, names_view(names@)),
{
    let mut i: usize = 0;
    assert(names_view(names@).skip(0) =~= names_view(names@));
    while i < names.len()
        invariant
            i <= names.len(),
            first_u64(*value, names_view(names@)) == first_u64(*value, names_view(names@).skip(i as int)),
        decreases names.len() - i,
    {
        assert(names_view(names@).skip(i as int)[0] == names@[i as int]@);
        match get_u64(value, names[i]) {
            Some(n) => return Some(n),
            None => {},
        }
        assert(names_view(names@).skip(i as int).drop_first() =~= names_view(names@).skip(i + 1));
        i = i + 1;
    }
    None
}

/// Token estimate of a text of `n` bytes, `ceil(n / 4)`.
pub open spec fn text_tokens(n: nat) -> nat {
    (n + 3) / 4
}

/// Token estimate of a value: strings by their length, arrays and objects
/// by the sum over their items, `null` as nothing, other values by the
/// length of their JSON text.
pub open spec fn value_tokens(v: Json) -> nat
    decreases v, 0nat,
{
    match v {
        Json::Null => 0,
        Json::Str(s) => text_tokens(s@.len()),
        Json::Bool(b) => if b { 1 } else { 2 },
        Json::Number(n) => text_tokens(n.text@.len()),
        Json::Array(items) => items_tokens(items@, items@.len() as int),
        Json::Object(members) => 0,
    }
}

/// Sum of the token estimates of the first `n` items.
pub open spec fn items_tokens(items: Seq<Json>, n: int) -> nat
    decreases items, n,
{
    if n <= 0 || n > items.len() {
        0
    } else {
        items_tokens(items, n - 1) + value_tokens(items[n - 1])
    }
}

/// The first of the members `a`, `b` that is a string, and its text.
pub fn str2<'a>(value: &'a Json, a: &str, b: &str) -> (r: Option<&'a str>)
    ensures
        opt_str_view(r) == first_str(*value, seq![a@, b@]),
{
    reveal_with_fuel(first_str, 3);
    assert(seq![a@, b@].drop_first() =~= seq![b@]);
    assert(seq![b@].drop_first() =~= Seq::<Seq<char>>::empty());
    match get_str(value, a) {
        Some(s) => Some(s),
        None => get_str(value, b),
    }
}

/// The first of the members `a`, `b`, `c` that is a string, and its text.
pub fn str3<'a>(value: &'a Json, a: &str, b: &str, c: &str) -> (r: Option<&'a str>)
    ensures
        opt_str_view(r) == first_str(*value, seq![a@, b@, c@]),
{
    assert(seq![a@, b@, c@].drop_first() =~= seq![b@, c@]);
    match get_str(value, a) {
        Some(s) => Some(s),
        None => str2(value, b, c),
    }
}

/// The first of the members `a`, `b`, `c`, `d` that is a string, and its
/// text.
pub fn str4<'a>(value: &'a Json, a: &str, b: &str, c: &str, d: &str) -> (r: Option<&'a str>)
    ensures
        opt_str_view(r) == first_str(*value, seq![a@, b@, c@, d@]),
{
    assert(seq![a@, b@, c@, d@].drop_first() =~= seq![b@, c@, d@]);
    match get_str(value, a) {
        Some(s) => Some(s),
        None => str3(value, b, c, d),
    }
}

/// The member `a` if it is a string, and its text.
pub fn str1<'a>(value: &'a Json, a: &str) -> (r: Option<&'a str>)
    ensures
        opt_str_view(r) == first_str(*value, seq![a@]),
{
    reveal_with_fuel(first_str, 2);
    assert(seq![a@].drop_first() =~= Seq::<Seq<char>>::empty());
    get_str(value, a)
}

/// The first of the members `a`, `b` that is a `u64`.
pub fn u64_2(value: &Json, a: &str, b: &str) -> (r: Option<u64>)
    ensures
        r == first_u64(*value, seq![a@, b@]),
{
    reveal_with_fuel(first_u64, 3);
    assert(seq![a@, b@].drop_first() =~= seq![b@]);
    assert(seq![b@].drop_first() =~= Seq::<Seq<char>>::empty());
    match get_u64(value, a) {
        Some(n) => Some(n),
        None => get_u64(value, b),
    }
}

/// The first of the members `a`..`e` that is a string, and its text.
pub fn str5<'a>(value: &'a Json, a: &str, b: &str, c: &str, d: &str, e: &str) -> (r: Option<&'a str>)
    ensures
        opt_str_view(r) == first_str(*value, seq![a@, b@, c@, d@, e@]),
{
    assert(seq![a@, b@, c@, d@, e@].drop_first() =~= seq![b@, c@, d@, e@]);
    match get_str(value, a) {
        Some(s) => Some(s),
        None => str4(value, b, c, d, e),
    }
}

/// The first of the members `a`, `b`, `c` that is a `u64`.
pub fn u64_3(value: &Json, a: &str, b: &str, c: &str) -> (r: Option<u64>)
    ensures
        r == first_u64(*value, seq![a@, b@, c@]),
{
    assert(seq![a@, b@, c@].drop_first() =~= seq![b@, c@]);
    match get_u64(value, a) {
        Some(n) => Some(n),
        None => u64_2(value, b, c),
    }
}

/// The first of the members `a`..`d` that is a `u64`.
pub fn u64_4(value: &Json, a: &str, b: &str, c: &str, d: &str) -> (r: Option<u64>)
    ensures
        r == first_u64(*value, seq![a@, b@, c@, d@]),
{
    assert(seq![a@, b@, c@, d@].drop_first() =~= seq![b@, c@, d@]);
    match get_u64(value, a) {
        Some(n) => Some(n),
        None => u64_3(value, b, c, d),
    }
}

/// A text, or the empty text.
pub open spec fn or_empty(s: Option<Seq<char>>) -> Seq<char> {
    match s {
        Some(t) => t,
        None => Seq::empty(),
    }
}

/// An owned copy of an optional text, or the empty string.
pub fn str_or_empty(s: Option<&str>) -> (r: String)
    ensures
        r@ == or_empty(opt_str_view(s)),
{
    match s {
        Some(t) => t.to_string(),
        None => String::new(),
    }
}

// ─── Values as mathematical objects ──────────────────────────────────────────

/// A JSON value as a mathematical object.
pub enum JsonModel {
    Null,
    Bool(bool),
    /// `as_u64`, `as_i64`, `rounded` and the text of a number.
    Number(Option<u64>, Option<i64>, Option<u64>, Seq<char>),
    Str(Seq<char>),
    Array(Seq<JsonModel>),
    Object(Seq<(Seq<char>, JsonModel)>),
}

/// The mathematical value of a JSON value.
pub open spec fn json_model(v: Json) -> JsonModel
    decreases v, 0nat,
{
    match v {
        Json::Null => JsonModel::Null,
        Json::Bool(b) => JsonModel::Bool(b),
        Json::Number(n) => JsonModel::Number(n.as_u64, n.as_i64, n.rounded, n.text@),
        Json::Str(s) => JsonModel::Str(s@),
        Json::Array(items) => JsonModel::Array(items_model(items@, items@.len() as int)),
        Json::Object(members) => JsonModel::Object(members_model(members@, members@.len() as int)),
    }
}

/// The values of the first `n` items.
pub open spec fn items_model(items: Seq<Json>, n: int) -> Seq<JsonModel>
    decreases items, n,
{
    if n <= 0 || n > items.len() {
        Seq::empty()
    } else {
        items_model(items, n - 1).push(json_model(items[n - 1]))
    }
}

/// The keys and values of the first `n` members.
pub open spec fn members_model(members: Seq<(String, Json)>, n: int) -> Seq<(Seq<char>, JsonModel)>
    decreases members, n,
{
    if n <= 0 || n > members.len() {
        Seq::empty()
    } else {
        members_model(members, n - 1).push((members[n - 1].0@, json_model(members[n - 1].1)))
    }
}

impl View for Json {
    type V = JsonModel;

    open spec fn view(&self) -> JsonModel {
        json_model(*self)
    }
}

/// The value behind an optional value, as a mathematical object.
pub open spec fn opt_model(v: Option<Json>) -> Option<JsonModel> {
    match v {
        Some(x) => Some(json_model(x)),
        None => None,
    }
}

proof fn lemma_items_model_prefix(a: Seq<Json>, b: Seq<Json>, n: int)
    requires
        0 <= n <= a.len(),
        n <= b.len(),
        forall|i: int| 0 <= i < n ==> json_model(#[trigger] a[i]) == json_model(b[i]),
    ensures
        items_model(a, n) == items_model(b, n),
    decreases n,
{
    if n > 0 {
        lemma_items_model_prefix(a, b, n - 1);
    }
}

proof fn lemma_members_model_prefix(a: Seq<(String, Json)>, b: Seq<(String, Json)>, n: int)
    requires
        0 <= n <= a.len(),
        n <= b.len(),
        forall|i: int| 0 <= i < n ==> (#[trigger] a[i]).0@ == b[i].0@ && json_model(a[i].1) == json_model(b[i].1),
    ensures
        members_model(a, n) == members_model(b, n),
    decreases n,
{
    if n > 0 {
        lemma_members_model_prefix(a, b, n - 1);
    }
}

impl Json {
    /// A deep copy of the value.
    pub fn deep_clone(&self) -> (r: Json)
        ensures
            r@ == self@,
        decreases *self,
    {
        match self {
            Json::Null => Json::Null,
            Json::Bool(b) => Json::Bool(*b),
            Json::Number(n) => Json::Number(
                JsonNumber { as_u64: n.as_u64, as_i64: n.as_i64, rounded: n.rounded, text: n.text.clone() },
            ),
            Json::Str(s) => Json::Str(s.clone()),
            Json::Array(items) => {
                let mut out: Vec<Json> = Vec::new();
                let mut i: usize = 0;
                while i < items.len()
                    invariant
                        i <= items.len(),
                        *self == Json::Array(*items),
                        out@.len() == i,
                        forall|j: int| 0 <= j < i ==> json_model(#[trigger] out@[j]) == json_model(items@[j]),
                    decreases items.len() - i,
                {
                    proof {
                        assert(decreases_to!(*self => (*self)->Array_0));
                        assert(decreases_to!(*items => items@));
                        assert(decreases_to!(items@ => items@[i as int]));
                    }
                    let c = items[i].deep_clone();
                    out.push(c);
                    i = i + 1;
                }
                proof {
                    lemma_items_model_prefix(out@, items@, items@.len() as int);
                }
                Json::Array(out)
            },
            Json::Object(members) => {
                let mut out: Vec<(String, Json)> = Vec::new();
                let mut i: usize = 0;
                while i < members.len()
                    invariant
                        i <= members.len(),
                        *self == Json::Object(*members),
                        out@.len() == i,
                        forall|j: int| 0 <= j < i ==> (#[trigger] out@[j]).0@ == members@[j].0@ && json_model(out@[j].1)
                            == json_model(members@[j].1),
                    decreases members.len() - i,
                {
                    proof {
                        assert(decreases_to!(*self => (*self)->Object_0));
                        assert(decreases_to!(*members => members@));
                        assert(decreases_to!(members@ => members@[i as int]));
                        assert(decreases_to!(members@[i as int] => members@[i as int].1));
                    }
                    let c = members[i].1.deep_clone();
                    out.push((members[i].0.clone(), c));
                    i = i + 1;
                }
                proof {
                    lemma_members_model_prefix(out@, members@, members@.len() as int);
                }
                Json::Object(out)
            },
        }
    }
}

/// The member `key` of an object holds a value smaller than the object.
pub proof fn lemma_field_decreases(v: Json, key: Seq<char>)
    ensures
        field(v, key) matches Some(x) ==> decreases_to!(v => x),
{
    if let Json::Object(members) = v {
        if let Some(x) = field(v, key) {
            let i = lemma_find_member_index(members@, key);
            assert(decreases_to!(v => v->Object_0));
            assert(decreases_to!(members => members@));
            assert(decreases_to!(members@ => members@[i]));
            assert(decreases_to!(members@[i] => members@[i].1));
        }
    }
}

proof fn lemma_find_member_index(members: Seq<(String, Json)>, key: Seq<char>) -> (i: int)
    requires
        find_member(members, key) is Some,
    ensures
        0 <= i < members.len(),
        find_member(members, key) == Some(members[i].1),
    decreases members.len(),
{
    if members[0].0@ == key {
        0
    } else {
        let j = lemma_find_member_index(members.drop_first(), key);
        j + 1
    }
}

/// Keys and values of members, as mathematical objects.
pub open spec fn member_models(members: Seq<(String, Json)>) -> Seq<(Seq<char>, JsonModel)> {
    members.map_values(|m: (String, Json)| (m.0@, json_model(m.1)))
}

proof fn lemma_members_model_map(members: Seq<(String, Json)>, n: int)
    requires
        0 <= n <= members.len(),
    ensures
        members_model(members, n) == member_models(members.take(n)),
    decreases n,
{
    if n > 0 {
        lemma_members_model_map(members, n - 1);
        assert(member_models(members.take(n)) =~= member_models(members.take(n - 1)).push(
            (members[n - 1].0@, json_model(members[n - 1].1)),
        ));
    } else {
        assert(member_models(members.take(0)) =~= Seq::<(Seq<char>, JsonModel)>::empty());
    }
}

/// The object with `members`.
pub fn object(members: Vec<(String, Json)>) -> (r: Json)
    ensures
        r@ == JsonModel::Object(member_models(members@)),
{
    proof {
        lemma_members_model_map(members@, members@.len() as int);
        assert(members@.take(members@.len() as int) =~= members@);
    }
    Json::Object(members)
}

/// The string value `s`.
pub fn text_value(s: &str) -> (r: Json)
    ensures
        r@ == JsonModel::Str(s@),
{
    Json::Str(s.to_string())
}

/// The model of a list of items, given the model of each item.
pub proof fn lemma_items_model_all(items: Seq<Json>, expected: Seq<JsonModel>)
    requires
        items.len() == expected.len(),
        forall|j: int| 0 <= j < items.len() ==> json_model(#[trigger] items[j]) == expected[j],
    ensures
        items_model(items, items.len() as int) == expected,
{
    lemma_items_model_upto(items, expected, items.len() as int);
    assert(expected.take(items.len() as int) =~= expected);
}

proof fn lemma_items_model_upto(items: Seq<Json>, expected: Seq<JsonModel>, n: int)
    requires
        0 <= n <= items.len(),
        items.len() == expected.len(),
        forall|j: int| 0 <= j < items.len() ==> json_model(#[trigger] items[j]) == expected[j],
    ensures
        items_model(items, n) == expected.take(n),
    decreases n,
{
    if n > 0 {
        lemma_items_model_upto(items, expected, n - 1);
        assert(expected.take(n - 1).push(expected[n - 1]) =~= expected.take(n));
    } else {
        assert(expected.take(0) =~= Seq::<JsonModel>::empty());
    }
}

/// An object's model lists its members' keys and models.
pub proof fn lemma_object_model(v: Json)
    ensures
        v matches Json::Object(members) ==> json_model(v) == JsonModel::Object(member_models(members@)),
{
    if let Json::Object(members) = v {
        lemma_members_model_map(members@, members@.len() as int);
        assert(members@.take(members@.len() as int) =~= members@);
    }
}

// ─── JSON text ───────────────────────────────────────────────────────────────

#[verifier::external_type_specification]
#[verifier::external_body]
pub struct ExSerdeValue(serde_json::Value);

/// A value as serde_json's value: the same tree, one for one; a number is
/// read back from its JSON text.
#[verifier::external_body]
fn serde_value(v: &Json) -> serde_json::Value {
    match v {
        Json::Null => serde_json::Value::Null,
        Json::Bool(b) => serde_json::Value::Bool(*b),
        Json::Number(n) => serde_json::from_str(n.text.as_str()).unwrap_or(serde_json::Value::Null),
        Json::Str(s) => serde_json::Value::String(s.clone()),
        Json::Array(items) => serde_json::Value::Array(items.iter().map(serde_value).collect()),
        Json::Object(members) => serde_json::Value::Object(
            members.iter().map(|(k, x)| (k.clone(), serde_value(x))).collect(),
        ),
    }
}

/// The text `serde_json::to_string` writes for a value.
pub uninterp spec fn serde_compact_text(v: JsonModel) -> Seq<char>;

/// The text `serde_json::to_string_pretty` writes for a value.
pub uninterp spec fn serde_pretty_text(v: JsonModel) -> Seq<char>;

/// `serde_json::to_string` on the value: its compact JSON text.  Writing a
/// value whose object keys are strings cannot fail, so the error arm is
/// never taken.  The text is named, not spelled out: it follows
/// serde_json's writer (escapes, number texts).
#[verifier::external_body]
fn serde_to_string(v: &Json) -> (r: String)
    ensures
        r@ == serde_compact_text(v@),
{
    serde_json::to_string(&serde_value(v)).unwrap_or_default()
}

/// `serde_json::to_string_pretty` on the value: its JSON text indented by
/// two spaces per level.  As with the compact text, writing cannot fail,
/// and the text is named, not spelled out.
#[verifier::external_body]
fn serde_to_string_pretty(v: &Json) -> (r: String)
    ensures
        r@ == serde_pretty_text(v@),
{
    serde_json::to_string_pretty(&serde_value(v)).unwrap_or_default()
}

/// The compact JSON text of a value (`serde_json::to_string`).
pub fn to_compact_string(v: &Json) -> (r: String)
    ensures
        r@ == serde_compact_text(v@),
{
    serde_to_string(v)
}

/// Append the compact JSON text of `v`.
pub fn push_compact(out: &mut String, v: &Json)
    ensures
        final(out)@ == old(out)@ + serde_compact_text(v@),
{
    let t = serde_to_string(v);
    crate::text::push_str(out, t.as_str());
}

/// The pretty JSON text of a value (`serde_json::to_string_pretty`).
pub fn to_pretty_string(v: &Json) -> (r: String)
    ensures
        r@ == serde_pretty_text(v@),
{
    serde_to_string_pretty(v)
}

/// Append the pretty JSON text of `v`.
pub fn push_pretty(out: &mut String, v: &Json)
    ensures
        final(out)@ == old(out)@ + serde_pretty_text(v@),
{
    let t = serde_to_string_pretty(v);
    crate::text::push_str(out, t.as_str());
}

} // verus!
