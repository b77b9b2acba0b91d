//! Calls into the `heck` and `versions` crates, with the contracts that the
//! rest of the library relies on.
use vstd::prelude::*;
use heck::ToKebabCase;
use versions::Versioning;
use crate::toolset::install_state::opt_view;
use crate::version_forms::plain_version_order;

verus! {

/// What `heck`'s `to_kebab_case` yields for a string: its words, lowercased,
/// joined by `-`.
pub uninterp spec fn kebab_case(s: Seq<char>) -> Seq<char>;

/// The order of two version strings as `versions` sees them: -1, 0 or 1 for
/// `Versioning::new(a)` below, equal to or above `Versioning::new(b)`, where a
/// string that does not parse (`None`) is below every one that does.
pub uninterp spec fn versioning_order(a: Seq<char>, b: Seq<char>) -> int;

/// What `serde_json` makes of a JSON text, as far as the `id` and `short`
/// fields go: `None` when the text does not parse, else each field's value
/// when it is present and a string.
pub uninterp spec fn json_id_and_short(text: Seq<char>) -> Option<(Option<Seq<char>>, Option<Seq<char>>)>;

/// Parses `text` with `serde_json::from_str` into a `serde_json::Value` and
/// reads the fields `id` and `short` with `Value::get` and `Value::as_str`.
/// The contract claims only that the result is a function of the text,
/// named `json_id_and_short`; what JSON parses is left to the crate.
#[verifier::external_body]
pub fn parse_json_id_and_short(text: &str) -> (r: Option<(Option<String>, Option<String>)>)
    ensures
        match json_id_and_short(text@) {
            Some((id, short)) => r matches Some((i, s)) && opt_view(i) == id
                && opt_view(s) == short,
            None => r is None,
        },
{
    match serde_json::from_str::<serde_json::Value>(text) {
        Ok(json) => Some((
            json.get("id").and_then(serde_json::Value::as_str).map(str::to_owned),
            json.get("short").and_then(serde_json::Value::as_str).map(str::to_owned),
        )),
        Err(_) => None,
    }
}

/// Calls `heck::ToKebabCase::to_kebab_case` on `s`. The contract claims only
/// that the result is the kebab form of `s` as a function of `s` alone; what
/// that form is, is left to the crate.
#[verifier::external_body]
pub fn to_kebab_case(s: &str) -> (r: String)
    ensures
        r@ == kebab_case(s@),
{
    s.to_kebab_case()
}

/// Parses both strings with `versions::Versioning::new` and compares the two
/// `Option<Versioning>` values with `Ord::cmp`. The contract claims that the
/// result is -1, 0 or 1, a function of the two strings, and that swapping
/// them negates it: `Versioning` implements `Ord`, whose contract requires
/// `b.cmp(a)` to be the reverse of `a.cmp(b)`, and `Option`'s order keeps
/// that. It also claims the order where the crate's source fixes it plainly
/// (`plain_version_order`): a string `x.y.z` or `x.y.z-pre` parses as a
/// `SemVer`, and two of them compare by major, minor and patch, then a
/// pre-release below the release; a string `x.y` is no `SemVer` but a
/// `Version` whose first number is `x`, and against a `SemVer` of another
/// major it compares by the majors. Between two pre-releases of one version,
/// and for every other shape, the order is left to the crate.
#[verifier::external_body]
pub fn compare_versioning(a: &str, b: &str) -> (r: i8)
    ensures
        r == versioning_order(a@, b@),
        -1 <= r <= 1,
        versioning_order(b@, a@) == -r,
        plain_version_order(a@, b@) matches Some(o) ==> r == o,
{
    match Versioning::new(a).cmp(&Versioning::new(b)) {
        std::cmp::Ordering::Less => -1,
        std::cmp::Ordering::Equal => 0,
        std::cmp::Ordering::Greater => 1,
    }
}

} // verus!
