//! Ordering by insertion: numbers, and lists of numbers.
use vstd::prelude::*;

verus! {

/// No number is followed by a smaller one.
pub open spec fn is_sorted(s: Seq<u64>) -> bool {
    forall|i: int, j: int| 0 <= i <= j < s.len() ==> s[i] <= s[j]
}

/// Puts the numbers in ascending order.
pub fn sort_numbers(v: Vec<u64>) -> (r: Vec<u64>)
    ensures
        is_sorted(r@),
        r@.to_multiset() == v@.to_multiset(),
        r@.len() == v@.len(),
{
    let mut r: Vec<u64> = Vec::new();
    let mut i: usize = 0;
    assert(v@.take(0) =~= Seq::<u64>::empty());
    while i < v.len()
        invariant
            i <= v.len(),
            is_sorted(r@),
            r@.to_multiset() == v@.take(i as int).to_multiset(),
            r@.len() == i,
        decreases v.len() - i,
    {
        let x: u64 = v[i];
        let ghost before = r@;
        let mut p: usize = r.len();
        while p > 0 && x < r[p - 1]
            invariant
                p <= r.len(),
                r@ == before,
                forall|j: int| p <= j < r@.len() ==> x < r@[j],
            decreases p,
        {
            p -= 1;
        }
        r.insert(p, x);
        proof {
            let after = r@;
            after.to_multiset_ensures();
            assert(after.remove(p as int) =~= before);
            assert(after[p as int] == x);
            assert(after.contains(x));
            assert(after.to_multiset() =~= before.to_multiset().insert(x));
            assert(v@.take(i + 1) =~= v@.take(i as int).push(x));
            v@.take(i as int).to_multiset_ensures();
        }
        i += 1;
    }
    assert(v@.take(v@.len() as int) =~= v@);
    r
}

/// Whether `a` stands before `b` in the order of lists: number by number, and
/// a list before its continuations.
pub open spec fn list_less(a: Seq<u64>, b: Seq<u64>) -> bool
    decreases a.len(),
{
    if b.len() == 0 {
        false
    } else if a.len() == 0 {
        true
    } else if a[0] != b[0] {
        a[0] < b[0]
    } else {
        list_less(a.skip(1), b.skip(1))
    }
}

/// Whether `a` stands before `b`.
pub fn less_list(a: &Vec<u64>, b: &Vec<u64>) -> (r: bool)
    ensures
        r == list_less(a@, b@),
{
    let mut i: usize = 0;
    assert(a@.skip(0) =~= a@);
    assert(b@.skip(0) =~= b@);
    while i < a.len() && i < b.len() && a[i] == b[i]
        invariant
            i <= a.len(),
            i <= b.len(),
            list_less(a@, b@) == list_less(a@.skip(i as int), b@.skip(i as int)),
        decreases a.len() - i,
    {
        assert(a@.skip(i as int).skip(1) =~= a@.skip(i + 1));
        assert(b@.skip(i as int).skip(1) =~= b@.skip(i + 1));
        i += 1;
    }
    if i == b.len() {
        false
    } else if i == a.len() {
        true
    } else {
        a[i] < b[i]
    }
}

/// The order of lists is a strict total order.
pub proof fn list_less_is_total(a: Seq<u64>, b: Seq<u64>)
    ensures
        !list_less(a, a),
        list_less(a, b) ==> !list_less(b, a),
        a != b ==> list_less(a, b) || list_less(b, a),
    decreases a.len(),
{
    if a.len() > 0 {
        list_less_is_total(a.skip(1), if b.len() > 0 {
            b.skip(1)
        } else {
            b
        });
    }
    if a.len() > 0 && b.len() > 0 && a[0] == b[0] {
        if a.skip(1) == b.skip(1) {
            assert(a =~= seq![a[0]] + a.skip(1));
            assert(b =~= seq![b[0]] + b.skip(1));
        }
    }
    if a.len() == 0 && b.len() == 0 {
        assert(a =~= b);
    }
}

pub proof fn list_less_is_transitive(a: Seq<u64>, b: Seq<u64>, c: Seq<u64>)
    requires
        list_less(a, b),
        list_less(b, c),
    ensures
        list_less(a, c),
    decreases a.len(),
{
    if a.len() > 0 && a[0] == b[0] && b[0] == c[0] {
        list_less_is_transitive(a.skip(1), b.skip(1), c.skip(1));
    }
}

/// Ascending, nothing twice.
pub open spec fn strictly_ascending(s: Seq<u64>) -> bool {
    forall|i: int, j: int| 0 <= i < j < s.len() ==> s[i] < s[j]
}

/// The numbers of `s` are those from 1 to `n`, each once, and no others.
pub open spec fn one_each_up_to(s: Seq<u64>, n: nat) -> bool {
    forall|p: u64|
        #[trigger] s.to_multiset().count(p) == (if 1 <= p <= n {
            1nat
        } else {
            0nat
        })
}

/// `s` counts up from 1.
pub open spec fn counts_up(s: Seq<u64>, n: nat) -> bool {
    s.len() == n && forall|i: int| 0 <= i < s.len() ==> s[i] == i + 1
}

proof fn lemma_position(s: Seq<u64>, n: nat, p: u64) -> (at: int)
    requires
        strictly_ascending(s),
        one_each_up_to(s, n),
        1 <= p <= n,
    ensures
        0 <= at < s.len(),
        s[at] == p,
        at >= p - 1,
    decreases p,
{
    s.to_multiset_ensures();
    assert(s.to_multiset().count(p) == 1);
    assert(s.contains(p));
    let at = choose|at: int| 0 <= at < s.len() && s[at] == p;
    if p > 1 {
        let before = lemma_position(s, n, (p - 1) as u64);
        assert(before < at) by {
            if before > at {
                assert(s[at] < s[before]);
            }
        }
    }
    at
}

/// In ascending order without repeats, the numbers from 1 to `n` are exactly
/// those that count up.
pub proof fn lemma_one_each(s: Seq<u64>, n: nat)
    requires
        strictly_ascending(s),
        n <= u64::MAX,
    ensures
        one_each_up_to(s, n) <==> counts_up(s, n),
{
    s.to_multiset_ensures();
    assert(s.no_duplicates()) by {
        assert forall|i: int, j: int| 0 <= i < s.len() && 0 <= j < s.len() && i != j implies s[i]
            != s[j] by {
            if i < j {
                assert(s[i] < s[j]);
            } else {
                assert(s[j] < s[i]);
            }
        }
    }
    s.lemma_multiset_has_no_duplicates();
    if counts_up(s, n) {
        assert forall|p: u64| #[trigger] s.to_multiset().count(p) == (if 1 <= p <= n {
            1nat
        } else {
            0nat
        }) by {
            if 1 <= p <= n {
                assert(s[p - 1] == p);
                assert(s.contains(p));
                assert(s.to_multiset().contains(p));
            } else {
                if s.contains(p) {
                    let at = choose|at: int| 0 <= at < s.len() && s[at] == p;
                    assert(s[at] == at + 1);
                }
            }
        }
    }
    if one_each_up_to(s, n) {
        assert forall|i: int| 0 <= i < s.len() implies 1 <= #[trigger] s[i] <= n by {
            assert(s.contains(s[i]));
            assert(s.to_multiset().count(s[i]) > 0);
        }
        assert forall|i: int| 0 <= i < s.len() implies #[trigger] s[i] == i + 1 by {
            lemma_at_least(s, i);
            let at = lemma_position(s, n, s[i]);
            if at != i {
                if at < i {
                    assert(s[at] < s[i]);
                } else {
                    assert(s[i] < s[at]);
                }
            }
        }
        if n > 0 {
            if s.len() < n {
                let at = lemma_position(s, n, n as u64);
                assert(at >= n - 1);
            } else if s.len() > n {
                assert(s[n as int] == n + 1);
            }
        } else {
            if s.len() > 0 {
                assert(1 <= s[0] <= n);
            }
        }
    }
}

proof fn lemma_at_least(s: Seq<u64>, i: int)
    requires
        strictly_ascending(s),
        0 <= i < s.len(),
        forall|i: int| 0 <= i < s.len() ==> 1 <= #[trigger] s[i],
    ensures
        s[i] >= i + 1,
    decreases i,
{
    if i > 0 {
        lemma_at_least(s, i - 1);
        assert(s[i - 1] < s[i]);
    }
}

/// Of two lists the one comes first that has the lower number where they part,
/// and the one that the other only goes on from.
pub proof fn lists_are_ordered_where_they_part(front: Seq<u64>, a: Seq<u64>, b: Seq<u64>)
    requires
        a.len() > 0,
        b.len() > 0,
        a[0] < b[0],
    ensures
        list_less(front + a, front + b),
        !list_less(front + b, front + a),
        list_less(front, front + a),
        !list_less(front, front),
    decreases front.len(),
{
    if front.len() > 0 {
        assert((front + a).skip(1) =~= front.skip(1) + a);
        assert((front + b).skip(1) =~= front.skip(1) + b);
        lists_are_ordered_where_they_part(front.skip(1), a, b);
    } else {
        assert(front + a =~= a);
        assert(front + b =~= b);
    }
}

} // verus!
