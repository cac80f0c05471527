//! Gathering the per-file verdicts of a batch into the set of matching files.
//! A file whose scan failed counts as not matching; the failures are counted.
use crate::pattern::contains_pattern;
use vstd::prelude::*;

verus! {

/// How the scan of one file ended.
#[derive(Debug, Clone, Copy, PartialEq, Eq, Structural)]
pub enum FileOutcome {
    /// The pattern occurs in the file.
    Matched,
    /// The whole file was read and the pattern does not occur in it.
    NoMatch,
    /// The file could not be opened or read.
    Failed,
}

/// The outcome of a completed scan of `data` for `pat`.
pub open spec fn outcome_of(data: Seq<u8>, pat: Seq<u8>) -> FileOutcome {
    if contains_pattern(data, pat) {
        FileOutcome::Matched
    } else {
        FileOutcome::NoMatch
    }
}

/// The items whose outcome is `Matched`, in their order.
pub open spec fn matched_in<T>(results: Seq<(T, FileOutcome)>) -> Seq<T>
    decreases results.len(),
{
    if results.len() == 0 {
        Seq::empty()
    } else {
        let rest = matched_in(results.drop_first());
        if results[0].1 == FileOutcome::Matched {
            seq![results[0].0].add(rest)
        } else {
            rest
        }
    }
}

/// The number of items whose outcome is `Failed`.
pub open spec fn failures_in<T>(results: Seq<(T, FileOutcome)>) -> nat
    decreases results.len(),
{
    if results.len() == 0 {
        0
    } else {
        let rest = failures_in(results.drop_first());
        if results[0].1 == FileOutcome::Failed {
            rest + 1
        } else {
            rest
        }
    }
}

/// The set of matching items, regardless of order.
pub open spec fn match_set<T>(results: Seq<(T, FileOutcome)>) -> Set<T> {
    matched_in(results).to_set()
}

/// What a batch produced: the matching items, in the order given, and how
/// many scans failed.
pub struct MatchReport<T> {
    pub matches: Vec<T>,
    pub failures: usize,
}

/// Keeps the items whose scan matched and counts the failed ones.
pub fn collect_matches<T>(results: Vec<(T, FileOutcome)>) -> (r: MatchReport<T>)
    ensures
        r.matches@ == matched_in(results@),
        r.failures == failures_in(results@),
{
    let ghost all = results@;
    let total = results.len();
    let mut rest = results;
    let mut matches: Vec<T> = Vec::new();
    let mut failures: usize = 0;
    proof {
        assert(all.subrange(all.len() as int, all.len() as int) =~= Seq::<
            (T, FileOutcome),
        >::empty());
        lemma_failures_bounded(Seq::<(T, FileOutcome)>::empty());
    }
    while rest.len() > 0
        invariant
            rest@ == all.subrange(0, rest@.len() as int),
            rest@.len() <= all.len(),
            matches@ == matched_in(all.subrange(rest@.len() as int, all.len() as int)),
            failures == failures_in(all.subrange(rest@.len() as int, all.len() as int)),
            failures <= all.len() - rest@.len(),
            all.len() == total,
        decreases rest@.len(),
    {
        let ghost m = rest@.len() as int;
        let (item, outcome) = rest.pop().unwrap();
        proof {
            let suffix = all.subrange(m - 1, all.len() as int);
            assert(suffix.drop_first() =~= all.subrange(m, all.len() as int));
            assert(suffix[0] == all[m - 1]);
            assert(rest@ =~= all.subrange(0, m - 1));
        }
        match outcome {
            FileOutcome::Matched => {
                matches.insert(0, item);
                assert(matches@ =~= seq![all[m - 1].0].add(
                    matched_in(all.subrange(m, all.len() as int)),
                ));
            },
            FileOutcome::Failed => {
                failures = failures + 1;
            },
            FileOutcome::NoMatch => {},
        }
    }
    assert(all.subrange(0, all.len() as int) =~= all);
    MatchReport { matches, failures }
}

proof fn lemma_failures_bounded<T>(results: Seq<(T, FileOutcome)>)
    ensures
        failures_in(results) <= results.len(),
    decreases results.len(),
{
    if results.len() > 0 {
        lemma_failures_bounded(results.drop_first());
    }
}

/// An item is in `matched_in(results)` exactly when some entry pairs it with
/// `Matched`.
pub proof fn lemma_matched_in_contains<T>(results: Seq<(T, FileOutcome)>, x: T)
    ensures
        matched_in(results).contains(x) <==> results.contains((x, FileOutcome::Matched)),
    decreases results.len(),
{
    if results.len() > 0 {
        let rest = results.drop_first();
        lemma_matched_in_contains(rest, x);
        if rest.contains((x, FileOutcome::Matched)) {
            let i = choose|i: int| 0 <= i < rest.len() && rest[i] == (x, FileOutcome::Matched);
            assert(results[i + 1] == (x, FileOutcome::Matched));
        }
        if results.contains((x, FileOutcome::Matched)) {
            let i = choose|i: int|
                0 <= i < results.len() && results[i] == (x, FileOutcome::Matched);
            if i > 0 {
                assert(rest[i - 1] == (x, FileOutcome::Matched));
            }
        }
        if results[0].1 == FileOutcome::Matched {
            let s = seq![results[0].0].add(matched_in(rest));
            assert(s[0] == results[0].0);
            if matched_in(rest).contains(x) {
                let k = choose|k: int| 0 <= k < matched_in(rest).len() && matched_in(rest)[k] == x;
                assert(s[k + 1] == x);
            }
            if s.contains(x) {
                let k = choose|k: int| 0 <= k < s.len() && s[k] == x;
                if k > 0 {
                    assert(matched_in(rest)[k - 1] == x);
                }
            }
        }
    }
}

/// The set of matching items does not depend on the order in which the
/// verdicts arrive: sequential and concurrent dispatch, whose verdicts differ
/// only in order, give the same set.
pub proof fn lemma_match_set_order_independent<T>(
    a: Seq<(T, FileOutcome)>,
    b: Seq<(T, FileOutcome)>,
)
    requires
        a.to_multiset() == b.to_multiset(),
    ensures
        match_set(a) == match_set(b),
{
    assert forall|x: T| #[trigger] match_set(a).contains(x) <==> match_set(b).contains(x) by {
        let e = (x, FileOutcome::Matched);
        lemma_matched_in_contains(a, x);
        lemma_matched_in_contains(b, x);
        vstd::seq_lib::to_multiset_contains(a, e);
        vstd::seq_lib::to_multiset_contains(b, e);
        assert(match_set(a).contains(x) == matched_in(a).contains(x));
        assert(match_set(b).contains(x) == matched_in(b).contains(x));
    }
    assert(match_set(a) =~= match_set(b));
}

/// Scanning an unchanged set of files again gives the same matches: when every
/// file's scan completes, its outcome is fixed by its bytes and the pattern.
pub proof fn lemma_rescan_same_matches<T>(
    files: Seq<T>,
    contents: Seq<Seq<u8>>,
    pat: Seq<u8>,
    first: Seq<(T, FileOutcome)>,
    second: Seq<(T, FileOutcome)>,
)
    requires
        contents.len() == files.len(),
        first.len() == files.len(),
        second.len() == files.len(),
        forall|i: int| 0 <= i < files.len() ==> #[trigger] first[i] == (files[i], outcome_of(contents[i], pat)),
        forall|i: int| 0 <= i < files.len() ==> #[trigger] second[i] == (files[i], outcome_of(contents[i], pat)),
    ensures
        matched_in(first) == matched_in(second),
        match_set(first) == match_set(second),
{
    assert(first =~= second);
}

} // verus!
