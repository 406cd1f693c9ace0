//! Shared layer-shell helpers used by drawer, notifications panel, and DND menu.
//!
//! A layer-shell surface only covers the output it's pinned to, so any UI
//! element that wants "click anywhere on any monitor closes me" needs one
//! catcher surface per monitor.

use vstd::prelude::*;
use crate::text;

verus! {

/// A monitor is left out where its connector is the excluded one.
pub open spec fn is_excluded(connector: Option<String>, exclude: Option<&str>) -> bool {
    match (connector, exclude) {
        (Some(c), Some(skip)) => c@ == skip@,
        _ => false,
    }
}

/// Those of the first `n` monitors that get a backdrop.
pub open spec fn covered(connectors: Seq<Option<String>>, exclude: Option<&str>, n: int) -> Seq<
    usize,
>
    decreases n,
{
    if n <= 0 {
        Seq::empty()
    } else if is_excluded(connectors[n - 1], exclude) {
        covered(connectors, exclude, n - 1)
    } else {
        covered(connectors, exclude, n - 1).push((n - 1) as usize)
    }
}

/// Which monitors get a full-screen backdrop window: all but the excluded one.
///
/// `exclude_connector` filters out a single monitor by its connector
/// name (e.g. `"DP-1"`). Callers that already render their own full-screen
/// surface on a particular monitor should pass that monitor's connector
/// here. Pass `None` to cover every monitor.
pub fn backdrop_monitors(connectors: &Vec<Option<String>>, exclude_connector: Option<&str>) -> (r:
    Vec<usize>)
    ensures
        r@ == covered(connectors@, exclude_connector, connectors@.len() as int),
{
    let mut out: Vec<usize> = Vec::new();
    let mut i: usize = 0;
    while i < connectors.len()
        invariant
            i <= connectors@.len(),
            out@ == covered(connectors@, exclude_connector, i as int),
        decreases connectors@.len() - i,
    {
        let skip = match (&connectors[i], exclude_connector) {
            (Some(c), Some(skip)) => text::same_text(c.as_str(), skip),
            _ => false,
        };
        if !skip {
            out.push(i);
        }
        i += 1;
    }
    out
}

/// Without an exclusion every monitor gets a backdrop.
pub proof fn every_monitor_is_covered(connectors: Seq<Option<String>>, n: int)
    requires
        0 <= n <= connectors.len() <= usize::MAX,
    ensures
        covered(connectors, None, n) == Seq::new(n as nat, |i: int| i as usize),
    decreases n,
{
    if n > 0 {
        every_monitor_is_covered(connectors, n - 1);
    }
    assert(covered(connectors, None, n) == Seq::new(n as nat, |i: int| i as usize));
}

/// A monitor gets a backdrop exactly where it is not the excluded one, each once and
/// in their order.
pub proof fn all_but_the_excluded_are_covered(
    connectors: Vec<Option<String>>,
    exclude: Option<&str>,
    r: Vec<usize>,
)
    requires
        call_ensures(backdrop_monitors, (&connectors, exclude), r),
    ensures
        forall|i: usize| #[trigger]
            r@.contains(i) <==> i < connectors@.len() && !(exclude is Some
                && connectors@[i as int] is Some && connectors@[i as int]->0@ == exclude->0@),
        forall|k: int, l: int| 0 <= k < l < r@.len() ==> r@[k] < r@[l],
{
    assert(connectors.len() == connectors@.len());
    lemma_covered(connectors@, exclude, connectors@.len() as int);
}

proof fn lemma_covered(connectors: Seq<Option<String>>, exclude: Option<&str>, n: int)
    requires
        0 <= n <= connectors.len() <= usize::MAX,
    ensures
        forall|i: usize| #[trigger]
            covered(connectors, exclude, n).contains(i) <==> i < n && !(exclude is Some
                && connectors[i as int] is Some && connectors[i as int]->0@ == exclude->0@),
        forall|k: int, l: int|
            0 <= k < l < covered(connectors, exclude, n).len() ==> covered(
                connectors,
                exclude,
                n,
            )[k] < covered(connectors, exclude, n)[l],
    decreases n,
{
    if n > 0 {
        lemma_covered(connectors, exclude, n - 1);
        let before = covered(connectors, exclude, n - 1);
        if !is_excluded(connectors[n - 1], exclude) {
            let last = (n - 1) as usize;
            let all = before.push(last);
            assert forall|i: usize| #[trigger] all.contains(i) <==> i < n && !(exclude is Some
                && connectors[i as int] is Some && connectors[i as int]->0@ == exclude->0@) by {
                if all.contains(i) {
                    let k = choose|k: int| 0 <= k < all.len() && all[k] == i;
                    if k < before.len() {
                        assert(before[k] == i);
                        assert(before.contains(i));
                    }
                }
                if before.contains(i) {
                    let k = choose|k: int| 0 <= k < before.len() && before[k] == i;
                    assert(all[k] == i);
                }
                if i == last {
                    assert(all[before.len() as int] == i);
                }
            }
            assert forall|k: int, l: int| 0 <= k < l < all.len() implies all[k] < all[l] by {
                assert(all[k] == before[k]);
                if l == before.len() {
                    let i = before[k];
                    assert(before.contains(i));
                } else {
                    assert(all[l] == before[l]);
                }
            }
        }
    }
}

} // verus!
