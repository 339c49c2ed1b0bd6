use vstd::prelude::*;
use vstd::relations::{sorted_by, total_ordering};

use crate::migrator::{
    after_down, after_up, down_candidates, strictly_ascending, up_candidates, Migrator,
};
use crate::traits::{highest, is_highest, Adapter, Version};

verus! {

proof fn lemma_ascending_multiset(s: Seq<Version>, v: Version)
    requires
        strictly_ascending(s),
    ensures
        s.to_multiset().count(v) == if s.to_set().contains(v) {
            1nat
        } else {
            0nat
        },
{
    assert(s.no_duplicates()) by {
        assert forall|i: int, j: int| 0 <= i < s.len() && 0 <= j < s.len() && i != j implies s[i]
            != s[j] by {
            if i < j {
                assert(s[i] < s[j]);
            } else {
                assert(s[j] < s[i]);
            }
        }
    }
    s.lemma_multiset_has_no_duplicates();
    s.to_multiset_ensures();
    if s.to_set().contains(v) {
        assert(s.contains(v));
    } else {
        assert(!s.contains(v));
    }
}

/// Registration order does not matter: two registries that hold the same versions
/// list them identically, in ascending order, the first being the lowest and the
/// last the highest.
pub proof fn lemma_registration_order<T: Adapter>(m1: &Migrator<T>, m2: &Migrator<T>)
    requires
        m1.wf(),
        m2.wf(),
        m1.versions().to_set() == m2.versions().to_set(),
    ensures
        m1.versions() == m2.versions(),
        forall|i: int, j: int|
            0 <= i < j < m1.versions().len() ==> m1.versions()[i] < m1.versions()[j],
        forall|v: Version|
            #[trigger] m1.versions().contains(v) ==> m1.versions()[0] <= v && v <= m1.versions().last(),
{
    let x = m1.versions();
    let y = m2.versions();
    let leq = |a: Version, b: Version| a <= b;
    assert(x.to_multiset() =~= y.to_multiset()) by {
        assert forall|v: Version| #[trigger] x.to_multiset().count(v) == y.to_multiset().count(v) by {
            lemma_ascending_multiset(x, v);
            lemma_ascending_multiset(y, v);
        }
    }
    assert(sorted_by(x, leq)) by {
        assert forall|i: int, j: int| 0 <= i < j < x.len() implies #[trigger] leq(x[i], x[j]) by {
            assert(x[i] < x[j]);
        }
    }
    assert(sorted_by(y, leq)) by {
        assert forall|i: int, j: int| 0 <= i < j < y.len() implies #[trigger] leq(y[i], y[j]) by {
            assert(y[i] < y[j]);
        }
    }
    vstd::seq_lib::lemma_sorted_unique(x, y, leq);
    assert forall|v: Version| #[trigger] x.contains(v) implies x[0] <= v && v <= x.last() by {
        let k = choose|k: int| 0 <= k < x.len() && #[trigger] x[k] == v;
        if k > 0 {
            assert(x[0] < x[k]);
        }
        if k < x.len() - 1 {
            assert(x[k] < x[x.len() - 1]);
        }
    }
}

/// Migrating up to the same bound twice changes nothing the second time: every
/// migration that the bound selects is applied after the first run, so none is
/// left to apply.
pub proof fn lemma_up_idempotent(vs: Seq<Version>, applied: Set<Version>, to: Option<Version>)
    ensures
        up_candidates(vs, to).subset_of(after_up(vs, applied, to)),
        after_up(vs, after_up(vs, applied, to), to) == after_up(vs, applied, to),
{
    assert(after_up(vs, after_up(vs, applied, to), to) =~= after_up(vs, applied, to));
}

proof fn lemma_finite_has_highest(s: Set<Version>)
    requires
        s.finite(),
        s.len() > 0,
    ensures
        exists|v: Version| is_highest(s, v),
    decreases s.len(),
{
    let x = s.choose();
    let rest = s.remove(x);
    if rest.len() == 0 {
        assert forall|w: Version| #[trigger] s.contains(w) implies w <= x by {
            if w != x {
                assert(rest.contains(w));
            }
        }
        assert(is_highest(s, x));
    } else {
        lemma_finite_has_highest(rest);
        let m = choose|v: Version| is_highest(rest, v);
        if m > x {
            assert forall|w: Version| #[trigger] s.contains(w) implies w <= m by {
                if w != x {
                    assert(rest.contains(w));
                }
            }
            assert(is_highest(s, m));
        } else {
            assert forall|w: Version| #[trigger] s.contains(w) implies w <= x by {
                if w != x {
                    assert(rest.contains(w));
                }
            }
            assert(is_highest(s, x));
        }
    }
}

/// Starting from nothing applied, migrating up to any bound and then all the way
/// down leaves nothing applied.
pub proof fn lemma_up_down_round_trip(vs: Seq<Version>, to: Option<Version>)
    ensures
        after_down(vs, after_up(vs, Set::empty(), to), None) == Set::<Version>::empty(),
{
    let a1 = after_up(vs, Set::empty(), to);
    vstd::seq_lib::seq_to_set_is_finite(vs);
    assert(a1.subset_of(vs.to_set()));
    vstd::set_lib::lemma_set_subset_finite(vs.to_set(), a1);
    if a1.len() == 0 {
        assert(a1 =~= Set::empty());
        assert(!exists|v: Version| is_highest(a1, v));
        assert(after_down(vs, a1, None) =~= Set::empty());
    } else {
        lemma_finite_has_highest(a1);
        let c = choose|v: Version| is_highest(a1, v);
        assert(highest(a1) == Some(c));
        assert(a1.subset_of(down_candidates(vs, None, Some(c))));
        assert(after_down(vs, a1, None) =~= Set::empty());
    }
}

} // verus!
