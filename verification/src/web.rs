//! Web addresses.

use vstd::prelude::*;

use crate::text;

verus! {

/// Why a text is no web address; none where it is one.
pub uninterp spec fn url_refusal(s: Seq<char>) -> Option<Seq<char>>;

/// The scheme of a web address.
pub uninterp spec fn url_scheme(s: Seq<char>) -> Seq<char>;

/// The host of a web address.
pub uninterp spec fn url_host(s: Seq<char>) -> Option<Seq<char>>;

/// The path of a web address.
pub uninterp spec fn url_path(s: Seq<char>) -> Seq<char>;

/// The names and values in the query of a web address, decoded, in order.
pub uninterp spec fn url_pairs(s: Seq<char>) -> Seq<(Seq<char>, Seq<char>)>;

/// A web address with names and values added to its query; none where the text
/// is no web address.
pub uninterp spec fn url_with_pairs(
    base: Seq<char>,
    pairs: Seq<(Seq<char>, Seq<char>)>,
) -> Option<Seq<char>>;

/// The values of a list of pairs of strings.
pub open spec fn pair_views(s: Seq<(String, String)>) -> Seq<(Seq<char>, Seq<char>)> {
    s.map_values(|p: (String, String)| (p.0@, p.1@))
}

/// The values of a list of pairs of string slices.
pub open spec fn str_pair_views(s: Seq<(&str, &str)>) -> Seq<(Seq<char>, Seq<char>)> {
    s.map_values(|p: (&str, &str)| (p.0@, p.1@))
}

/// `url::Url::parse`, then `scheme`, `host_str` and `path` of what it gives: all
/// are functions of the text. There is a result where the text parses.
#[verifier::external_body]
pub(crate) fn url_place(s: &str) -> (r: Option<(String, Option<String>, String)>)
    ensures
        r is Some <==> url_refusal(s@) is None,
        r is Some ==> (r->0).0@ == url_scheme(s@),
        r is Some ==> text::opt_view((r->0).1) == url_host(s@),
        r is Some ==> (r->0).2@ == url_path(s@),
{
    let u = url::Url::parse(s).ok()?;
    Some((u.scheme().to_string(), u.host_str().map(String::from), u.path().to_string()))
}

/// `url::Url::parse`, then `query_pairs` of what it gives, or the text of its
/// error: all are functions of the text.
#[verifier::external_body]
pub(crate) fn query_pairs_of(s: &str) -> (r: Result<Vec<(String, String)>, String>)
    ensures
        match r {
            Ok(pairs) => url_refusal(s@) is None && pair_views(pairs@) == url_pairs(s@),
            Err(e) => url_refusal(s@) == Some(e@),
        },
{
    match url::Url::parse(s) {
        Ok(u) => Ok(u.query_pairs().map(|(k, v)| (k.into_owned(), v.into_owned())).collect()),
        Err(e) => Err(e.to_string()),
    }
}

/// How many characters each part of a web address may have: a web address of
/// more than four gigabytes cannot be made.
pub const PART_LIMIT: usize = 10_000_000;

/// No more than eight pairs, and no text longer than the limit.
pub open spec fn moderate(base: Seq<char>, pairs: Seq<(&str, &str)>) -> bool {
    &&& base.len() <= PART_LIMIT
    &&& pairs.len() <= 8
    &&& forall|i: int|
        0 <= i < pairs.len() ==> (#[trigger] pairs[i]).0@.len() <= PART_LIMIT && pairs[i].1@.len()
            <= PART_LIMIT
}

/// The address is one of the web.
pub open spec fn is_web(s: Seq<char>) -> bool {
    url_scheme(s) == "http"@ || url_scheme(s) == "https"@
}

/// `url::Url::parse`, then `extend_pairs` on its `query_pairs_mut`, as a text: a
/// function of the base and the pairs. There is a result where the base parses.
/// For an address of the web the result parses too, and the pairs are read back
/// behind those that the base had.
#[verifier::external_body]
pub(crate) fn with_query(base: &str, pairs: &Vec<(&str, &str)>) -> (r: Option<String>)
    requires
        moderate(base@, pairs@),
    ensures
        r is Some <==> url_refusal(base@) is None,
        text::opt_view(r) == url_with_pairs(base@, str_pair_views(pairs@)),
        r is Some && is_web(base@) ==> url_refusal(r->0@) is None,
        r is Some && is_web(base@) ==> url_pairs(r->0@) == url_pairs(base@) + str_pair_views(pairs@),
{
    let mut u = url::Url::parse(base).ok()?;
    u.query_pairs_mut().extend_pairs(pairs.iter().copied());
    Some(u.to_string())
}

} // verus!
