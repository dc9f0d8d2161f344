//! Whitelist compilation: a sequence of raw pattern lines becomes one
//! compiled matcher that tests a domain against every pattern at once.

use vstd::prelude::*;

verus! {

/// Whether `regex::RegexSet::new`, given these pattern strings, builds a set
/// successfully.  This depends on the pattern strings alone.
pub uninterp spec fn regex_set_compiles(patterns: Seq<Seq<char>>) -> bool;

/// What `regex::RegexSet::is_match` returns for a set built from `patterns`
/// when applied to `domain`.  This depends on the two arguments alone.
pub uninterp spec fn regex_set_matches(patterns: Seq<Seq<char>>, domain: Seq<char>) -> bool;

/// The pattern strings of a whitelist, as sequences of characters.
pub open spec fn pattern_views(patterns: Seq<String>) -> Seq<Seq<char>> {
    patterns.map_values(|p: String| p@)
}

/// Whether a whitelist compiled from `patterns` accepts `domain`: at least one
/// pattern must match.  A whitelist with no patterns accepts nothing.
pub open spec fn whitelist_match(patterns: Seq<Seq<char>>, domain: Seq<char>) -> bool {
    patterns.len() > 0 && regex_set_matches(patterns, domain)
}

#[verifier::external_type_specification]
#[verifier::external_body]
pub struct ExRegexSet(regex::RegexSet);

#[verifier::external_type_specification]
#[verifier::external_body]
pub struct ExRegexError(regex::Error);

/// A compiled whitelist: one immutable matcher for all patterns.  Its view is
/// the sequence of pattern strings it was compiled from.
pub struct CompiledWhitelist {
    set: regex::RegexSet,
    patterns: Vec<String>,
}

/// A pattern line that is not a valid regular expression; compilation of the
/// whole whitelist fails as a unit.
#[derive(Debug)]
pub struct PatternError {
    pub cause: regex::Error,
}

impl View for CompiledWhitelist {
    type V = Seq<Seq<char>>;

    closed spec fn view(&self) -> Seq<Seq<char>> {
        pattern_views(self.patterns@)
    }
}

/// Relies on `regex::RegexSet::new`: it returns `Ok` exactly when every
/// pattern is a valid regular expression, and always does so for zero
/// patterns (`RegexSet::empty` is documented as `RegexSet::new([])` and
/// unwraps the result).  The built set is recorded together with the
/// patterns it was built from; this is the only place a `CompiledWhitelist`
/// is constructed.
#[verifier::external_body]
fn build_regex_set(patterns: &Vec<String>) -> (r: Result<CompiledWhitelist, regex::Error>)
    ensures
        r is Ok <==> regex_set_compiles(pattern_views(patterns@)),
        patterns@.len() == 0 ==> r is Ok,
        r matches Ok(w) ==> w@ == pattern_views(patterns@),
{
    match regex::RegexSet::new(patterns.iter()) {
        Ok(set) => Ok(CompiledWhitelist { set, patterns: patterns.clone() }),
        Err(e) => Err(e),
    }
}

/// Relies on `regex::RegexSet::is_match`: true if and only if one of the
/// set's regexes matches the haystack (unanchored unless the pattern itself
/// anchors), and an empty set never matches anything.
#[verifier::external_body]
fn regex_set_is_match(w: &CompiledWhitelist, domain: &str) -> (r: bool)
    ensures
        r == regex_set_matches(w@, domain@),
        w@.len() == 0 ==> !r,
{
    w.set.is_match(domain)
}

/// Builds the single matcher for a whole pattern list.  Succeeds exactly when
/// every pattern is a valid regular expression; a malformed pattern fails the
/// whole compilation.
pub fn compile(patterns: &Vec<String>) -> (r: Result<CompiledWhitelist, PatternError>)
    ensures
        r is Ok <==> regex_set_compiles(pattern_views(patterns@)),
        patterns@.len() == 0 ==> r is Ok,
        r matches Ok(w) ==> w@ == pattern_views(patterns@),
{
    match build_regex_set(patterns) {
        Ok(w) => Ok(w),
        Err(e) => Err(PatternError { cause: e }),
    }
}

/// The whitelist used when the whitelist source is missing or unreadable:
/// it was compiled from no patterns and accepts no domain.
pub fn match_nothing() -> (r: CompiledWhitelist)
    ensures
        r@ == Seq::<Seq<char>>::empty(),
{
    let patterns: Vec<String> = Vec::new();
    proof {
        assert(pattern_views(patterns@) =~= Seq::<Seq<char>>::empty());
    }
    match build_regex_set(&patterns) {
        Ok(w) => w,
        Err(_) => {
            proof {
                assert(false);
            }
            vstd::pervasive::unreached()
        },
    }
}

impl CompiledWhitelist {
    /// Tests one domain against every pattern of the whitelist at once.
    pub fn matches(&self, domain: &str) -> (r: bool)
        ensures
            r == whitelist_match(self@, domain@),
    {
        regex_set_is_match(self, domain)
    }
}

/// A whitelist compiled from no patterns — the fallback for a missing or
/// unreadable whitelist source — matches no domain at all.
pub proof fn lemma_empty_whitelist_matches_nothing(patterns: Seq<Seq<char>>, domain: Seq<char>)
    requires
        patterns.len() == 0,
    ensures
        !whitelist_match(patterns, domain),
{
}

} // verus!
