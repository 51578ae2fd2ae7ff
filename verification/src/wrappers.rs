//! Calls into `regex` and into the parts of `std` that vstd does not
//! describe. Each item's contract is believed, not proved.

use vstd::prelude::*;

verus! {

/// Whether `regex::Regex::new` accepts `pattern` (it refuses invalid
/// patterns and ones over its default size limit).
pub uninterp spec fn regex_compiles(pattern: Seq<char>) -> bool;

/// `regex::Regex::is_match`: some match of `pattern` occurs in `haystack`.
pub uninterp spec fn regex_matches(pattern: Seq<char>, haystack: Seq<char>) -> bool;

/// `regex::Regex::captures`: for the leftmost-first match of `pattern` in
/// `haystack`, the text of each capture group (group 0 is the whole match),
/// or `None` when nothing matches.
pub uninterp spec fn regex_captures(pattern: Seq<char>, haystack: Seq<char>) -> Option<Seq<Option<Seq<char>>>>;

/// `str::to_lowercase` (full Unicode lower-casing).
pub uninterp spec fn lowercase_spec(s: Seq<char>) -> Seq<char>;

/// What `format!("{:?}", s)` gives for a string: std's `Debug` for `str`,
/// the string in double quotes with its special characters escaped.
pub uninterp spec fn debug_str_spec(s: Seq<char>) -> Seq<char>;

/// A compiled regular expression together with its source pattern.
pub struct CompiledRegex {
    re: regex::Regex,
    pattern: String,
}

#[verifier::external_type_specification]
#[verifier::external_body]
pub struct ExRegex(regex::Regex);

impl CompiledRegex {
    pub closed spec fn pattern_spec(&self) -> Seq<char> {
        self.pattern@
    }
}

/// The capture texts held by a vector of optional strings.
pub open spec fn opt_views(v: Seq<Option<String>>) -> Seq<Option<Seq<char>>> {
    v.map_values(|o: Option<String>| match o {
        Some(s) => Some(s@),
        None => None,
    })
}

/// `regex::Regex::new`: the compiled pattern, or `None` when the crate
/// refuses it.
#[verifier::external_body]
pub(crate) fn regex_new(pattern: &str) -> (r: Option<CompiledRegex>)
    ensures
        r is Some <==> regex_compiles(pattern@),
        r matches Some(c) ==> c.pattern_spec() == pattern@,
{
    match regex::Regex::new(pattern) {
        Ok(re) => Some(CompiledRegex { re, pattern: pattern.to_string() }),
        Err(_) => None,
    }
}

/// `regex::Regex::is_match`.
#[verifier::external_body]
pub(crate) fn regex_is_match(re: &CompiledRegex, haystack: &str) -> (r: bool)
    ensures
        r == regex_matches(re.pattern_spec(), haystack@),
{
    re.re.is_match(haystack)
}

/// `regex::Regex::captures`, each group taken as an owned string.
#[verifier::external_body]
pub(crate) fn regex_captures_of(re: &CompiledRegex, haystack: &str) -> (r: Option<Vec<Option<String>>>)
    ensures
        match r {
            Some(groups) => regex_captures(re.pattern_spec(), haystack@) == Some(opt_views(groups@)),
            None => regex_captures(re.pattern_spec(), haystack@) is None,
        },
{
    match re.re.captures(haystack) {
        Some(caps) => {
            let mut groups = Vec::new();
            for m in caps.iter() {
                groups.push(match m {
                    Some(m) => Some(m.as_str().to_string()),
                    None => None,
                });
            }
            Some(groups)
        },
        None => None,
    }
}

/// `str::to_lowercase`.
#[verifier::external_body]
pub(crate) fn to_lowercase(s: &str) -> (r: String)
    ensures
        r@ == lowercase_spec(s@),
{
    s.to_lowercase()
}

/// `<str as Debug>::fmt`, written out by `format!`.
#[verifier::external_body]
pub(crate) fn debug_str(s: &str) -> (r: String)
    ensures
        r@ == debug_str_spec(s@),
{
    format!("{:?}", s)
}

} // verus!
