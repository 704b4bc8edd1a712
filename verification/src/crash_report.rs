//! The opt-out crash report that follows a successful extension self-heal:
//! whether the user's answer allows it, the privacy-safe identity that is
//! sent (a name and a package directory, never a path), where it goes and
//! the report's JSON body.  Asking, reading the key and sending are the
//! caller's.
use crate::cli::{identity_spec, strip_all_suffix, strip_all_suffix_exec};
use crate::json::{Json, JsonModel};
use crate::text::{push_str, to_owned};
use vstd::prelude::*;

verus! {

/// Whether the answer to "Report this …? [Y/n]" allows the report: every
/// key but `n` / `N` (and no key at all) says yes.
pub open spec fn report_allowed_spec(key: Option<char>) -> bool {
    key != Some('n') && key != Some('N')
}

/// Whether the answer allows the report (see [`report_allowed_spec`]).
pub fn report_allowed(key: Option<char>) -> (r: bool)
    ensures
        r == report_allowed_spec(key),
{
    match key {
        Some(c) => c != 'n' && c != 'N',
        None => true,
    }
}

/// The identity reported for a culprit: `combo` for a combination of
/// extensions, else the name and package directory of its path.
pub open spec fn report_identity_spec(path_or_label: Seq<char>, kind: Seq<char>) -> (Seq<char>, Seq<char>) {
    if kind == "combo"@ {
        ("combo"@, "combo"@)
    } else {
        identity_spec(path_or_label)
    }
}

/// The identity reported for a culprit (see [`report_identity_spec`]).
pub fn report_identity(path_or_label: &str, kind: &str) -> (r: (String, String))
    ensures
        (r.0@, r.1@) == report_identity_spec(path_or_label@, kind@),
{
    if crate::text::str_eq(kind, "combo") {
        (to_owned("combo"), to_owned("combo"))
    } else {
        crate::cli::ext_identity_from_path(path_or_label)
    }
}

/// The report endpoint under a base URL: trailing slashes dropped, then
/// `/v1/report`.
pub open spec fn report_endpoint_spec(base: Seq<char>) -> Seq<char> {
    strip_all_suffix(base, "/"@) + "/v1/report"@
}

/// The report endpoint (see [`report_endpoint_spec`]).
pub fn report_endpoint(base: &str) -> (r: String)
    ensures
        r@ == report_endpoint_spec(base@),
{
    proof {
        reveal_strlit("/");
    }
    let mut out = strip_all_suffix_exec(to_owned(base), "/");
    push_str(&mut out, "/v1/report");
    out
}

/// The report's body: the identity, the kind of culprit and the client.
pub open spec fn report_body_spec(ext_name: Seq<char>, package_dir: Seq<char>, kind: Seq<char>) -> JsonModel {
    JsonModel::Object(
        seq![
            ("ext_name"@, JsonModel::Str(ext_name)),
            ("package_dir"@, JsonModel::Str(package_dir)),
            ("kind"@, JsonModel::Str(kind)),
            ("client"@, JsonModel::Str("grok-pi"@)),
        ],
    )
}

/// The report's JSON body (see [`report_body_spec`]).
pub fn report_body(ext_name: &str, package_dir: &str, kind: &str) -> (r: Json)
    ensures
        r@ == report_body_spec(ext_name@, package_dir@, kind@),
{
    let mut members: Vec<(String, Json)> = Vec::new();
    members.push((to_owned("ext_name"), Json::Str(to_owned(ext_name))));
    members.push((to_owned("package_dir"), Json::Str(to_owned(package_dir))));
    members.push((to_owned("kind"), Json::Str(to_owned(kind))));
    members.push((to_owned("client"), Json::Str(to_owned("grok-pi"))));
    let ghost ms = members@;
    let v = Json::Object(members);
    proof {
        crate::json::lemma_object_model(v);
        assert(crate::json::member_models(ms) =~= seq![
            ("ext_name"@, JsonModel::Str(ext_name@)),
            ("package_dir"@, JsonModel::Str(package_dir@)),
            ("kind"@, JsonModel::Str(kind@)),
            ("client"@, JsonModel::Str("grok-pi"@)),
        ]);
    }
    v
}

} // verus!
