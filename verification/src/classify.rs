//! Domain classification: the compiled whitelist partitions the listed
//! domains into the allowed and the condemned.

use vstd::prelude::*;

use crate::whitelist::{whitelist_match, CompiledWhitelist};

verus! {

/// The domain strings of a listing, as sequences of characters.
pub open spec fn domain_views(domains: Seq<String>) -> Seq<Seq<char>> {
    domains.map_values(|d: String| d@)
}

/// The domains of the listing that the whitelist accepts, in listing order.
pub open spec fn allowed_part(domains: Seq<Seq<char>>, patterns: Seq<Seq<char>>) -> Seq<
    Seq<char>,
> {
    domains.filter(|d: Seq<char>| whitelist_match(patterns, d))
}

/// The domains of the listing that the whitelist rejects, in listing order.
pub open spec fn condemned_part(domains: Seq<Seq<char>>, patterns: Seq<Seq<char>>) -> Seq<
    Seq<char>,
> {
    domains.filter(|d: Seq<char>| !whitelist_match(patterns, d))
}

/// Splits the listed domains: each one goes to the allowed side when the
/// whitelist matches it, to the condemned side when it does not, keeping the
/// listing order on both sides.
pub fn classify(domains: &Vec<String>, whitelist: &CompiledWhitelist) -> (r: (
    Vec<String>,
    Vec<String>,
))
    ensures
        domain_views(r.0@) == allowed_part(domain_views(domains@), whitelist@),
        domain_views(r.1@) == condemned_part(domain_views(domains@), whitelist@),
{
    let ghost dv = domain_views(domains@);
    let ghost accept = |d: Seq<char>| whitelist_match(whitelist@, d);
    let ghost reject = |d: Seq<char>| !whitelist_match(whitelist@, d);
    let mut allowed: Vec<String> = Vec::new();
    let mut condemned: Vec<String> = Vec::new();
    let mut i: usize = 0;
    while i < domains.len()
        invariant
            i <= domains.len(),
            dv == domain_views(domains@),
            accept == (|d: Seq<char>| whitelist_match(whitelist@, d)),
            reject == (|d: Seq<char>| !whitelist_match(whitelist@, d)),
            domain_views(allowed@) == dv.take(i as int).filter(accept),
            domain_views(condemned@) == dv.take(i as int).filter(reject),
        decreases domains.len() - i,
    {
        let d = &domains[i];
        proof {
            assert(dv.take(i + 1) =~= dv.take(i as int).push(dv[i as int]));
            lemma_filter_push(dv.take(i as int), accept, dv[i as int]);
            lemma_filter_push(dv.take(i as int), reject, dv[i as int]);
            assert(dv[i as int] == d@);
        }
        if whitelist.matches(d) {
            allowed.push(d.clone());
            proof {
                assert(domain_views(allowed@) =~= dv.take(i + 1).filter(accept));
                assert(domain_views(condemned@) =~= dv.take(i + 1).filter(reject));
            }
        } else {
            condemned.push(d.clone());
            proof {
                assert(domain_views(allowed@) =~= dv.take(i + 1).filter(accept));
                assert(domain_views(condemned@) =~= dv.take(i + 1).filter(reject));
            }
        }
        i = i + 1;
    }
    proof {
        assert(dv.take(domains@.len() as int) =~= dv);
    }
    (allowed, condemned)
}

/// Filtering a sequence extended by one element keeps the filtered prefix and
/// appends the new element exactly when the predicate accepts it.
proof fn lemma_filter_push(s: Seq<Seq<char>>, pred: spec_fn(Seq<char>) -> bool, x: Seq<char>)
    ensures
        s.push(x).filter(pred) == if pred(x) {
            s.filter(pred).push(x)
        } else {
            s.filter(pred)
        },
{
    reveal(Seq::filter);
    assert(s.push(x).drop_last() =~= s);
    assert(s.push(x).last() == x);
}

/// Every element of a filtered sequence comes from the original sequence and
/// satisfies the predicate.
pub proof fn lemma_filter_members(s: Seq<Seq<char>>, pred: spec_fn(Seq<char>) -> bool)
    ensures
        forall|d: Seq<char>| #[trigger]
            s.filter(pred).contains(d) ==> s.contains(d) && pred(d),
    decreases s.len(),
{
    reveal(Seq::filter);
    if s.len() > 0 {
        let rest = s.drop_last();
        lemma_filter_members(rest, pred);
        assert forall|d: Seq<char>| #[trigger]
            s.filter(pred).contains(d) implies s.contains(d) && pred(d) by {
            if pred(s.last()) && d == s.last() {
                assert(s[s.len() - 1] == d);
            } else {
                assert(rest.filter(pred).contains(d));
                let j = choose|j: int| 0 <= j < rest.len() && rest[j] == d;
                assert(s[j] == d);
            }
        }
    }
}

/// Every element of the original sequence that satisfies the predicate is
/// kept by the filter.
proof fn lemma_filter_keeps(s: Seq<Seq<char>>, pred: spec_fn(Seq<char>) -> bool)
    ensures
        forall|i: int| 0 <= i < s.len() && pred(s[i]) ==> #[trigger] s.filter(pred).contains(s[i]),
{
    assert forall|i: int| 0 <= i < s.len() && pred(s[i]) implies #[trigger] s.filter(pred).contains(
        s[i],
    ) by {
        s.lemma_filter_contains(pred, i);
    }
}

/// The partition property: classification splits the listed domains into two
/// sides that together hold exactly the listed domains, and no domain stands
/// on both sides.
pub proof fn lemma_classify_partition(domains: Seq<Seq<char>>, patterns: Seq<Seq<char>>)
    ensures
        allowed_part(domains, patterns).to_set() + condemned_part(domains, patterns).to_set()
            =~= domains.to_set(),
        allowed_part(domains, patterns).to_set().disjoint(
            condemned_part(domains, patterns).to_set(),
        ),
{
    let accept = |d: Seq<char>| whitelist_match(patterns, d);
    let reject = |d: Seq<char>| !whitelist_match(patterns, d);
    lemma_filter_members(domains, accept);
    lemma_filter_members(domains, reject);
    lemma_filter_keeps(domains, accept);
    lemma_filter_keeps(domains, reject);
    assert forall|d: Seq<char>| domains.to_set().contains(d) implies (allowed_part(
        domains,
        patterns,
    ).to_set() + condemned_part(domains, patterns).to_set()).contains(d) by {
        let i = choose|i: int| 0 <= i < domains.len() && domains[i] == d;
        if accept(d) {
            assert(domains.filter(accept).contains(domains[i]));
        } else {
            assert(domains.filter(reject).contains(domains[i]));
        }
    }
}

} // verus!
