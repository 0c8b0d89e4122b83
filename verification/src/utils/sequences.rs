use vstd::prelude::*;

verus! {

/// The positions below `n` that `keep` accepts, in increasing order.
pub open spec fn positions(n: nat, keep: spec_fn(int) -> bool) -> Seq<int>
    decreases n,
{
    if n == 0 {
        Seq::empty()
    } else {
        let rest = positions((n - 1) as nat, keep);
        if keep(n - 1) {
            rest.push(n - 1)
        } else {
            rest
        }
    }
}

/// How many positions below `n` are accepted by `keep`.
pub open spec fn count(n: nat, keep: spec_fn(int) -> bool) -> nat {
    positions(n, keep).len()
}

/// The values of `values` at the places that `rows` lists, in the order of `rows`.
pub open spec fn gather<A>(values: Seq<A>, rows: Seq<int>) -> Seq<A> {
    Seq::new(rows.len(), |i: int| values[rows[i]])
}

/// A list of row numbers as mathematical integers.
pub open spec fn indices(rows: Seq<usize>) -> Seq<int> {
    Seq::new(rows.len(), |i: int| rows[i] as int)
}

/// Whether every entry of `rows` is a position below `n`.
pub open spec fn within(rows: Seq<int>, n: nat) -> bool {
    forall|i: int| 0 <= i < rows.len() ==> 0 <= #[trigger] rows[i] < n
}

/// The texts that a list of strings holds.
pub open spec fn texts(strings: Seq<String>) -> Seq<Seq<char>> {
    Seq::new(strings.len(), |i: int| strings[i]@)
}

/// The values of `s` without repetition, each at the place of its first occurrence.
pub open spec fn distinct<A>(s: Seq<A>) -> Seq<A>
    decreases s.len(),
{
    if s.len() == 0 {
        Seq::empty()
    } else {
        let rest = distinct(s.drop_last());
        if rest.contains(s.last()) {
            rest
        } else {
            rest.push(s.last())
        }
    }
}

/// The test for a place at which `x` stands in `s`.
pub open spec fn stands_at<A>(s: Seq<A>, x: A) -> spec_fn(int) -> bool {
    |i: int| s[i] == x
}

/// How often `x` occurs in `s`.
pub open spec fn occurrences<A>(s: Seq<A>, x: A) -> nat {
    count(s.len(), stands_at(s, x))
}

/// The positions that `positions` lists are below `n`, accepted by `keep`, and
/// strictly increasing; every accepted position below `n` is listed.
pub proof fn lemma_positions(n: nat, keep: spec_fn(int) -> bool)
    ensures
        positions(n, keep).len() <= n,
        within(positions(n, keep), n),
        forall|i: int| 0 <= i < positions(n, keep).len() ==> keep(#[trigger] positions(n, keep)[i]),
        forall|i: int, j: int|
            0 <= i < j < positions(n, keep).len() ==> positions(n, keep)[i] < positions(
                n,
                keep,
            )[j],
        forall|p: int| 0 <= p < n && #[trigger] keep(p) ==> positions(n, keep).contains(p),
    decreases n,
{
    if n > 0 {
        let m = (n - 1) as nat;
        lemma_positions(m, keep);
        let rest = positions(m, keep);
        let all = positions(n, keep);
        assert forall|p: int| 0 <= p < n && #[trigger] keep(p) implies all.contains(p) by {
            if p < m {
                let i = choose|i: int| 0 <= i < rest.len() && rest[i] == p;
                assert(all[i] == p);
            } else {
                assert(all[all.len() - 1] == p);
            }
        }
    }
}

/// Two tests that agree below `n` select the same positions.
pub proof fn lemma_positions_congruent(
    n: nat,
    keep: spec_fn(int) -> bool,
    other: spec_fn(int) -> bool,
)
    requires
        forall|p: int| 0 <= p < n ==> #[trigger] keep(p) == other(p),
    ensures
        positions(n, keep) == positions(n, other),
    decreases n,
{
    if n > 0 {
        lemma_positions_congruent((n - 1) as nat, keep, other);
    }
}

/// `distinct` repeats nothing and holds exactly the values of its argument.
pub proof fn lemma_distinct<A>(s: Seq<A>)
    ensures
        distinct(s).no_duplicates(),
        distinct(s).len() <= s.len(),
        forall|x: A| distinct(s).contains(x) <==> s.contains(x),
    decreases s.len(),
{
    if s.len() > 0 {
        let front = s.drop_last();
        lemma_distinct(front);
        let rest = distinct(front);
        let all = distinct(s);
        assert forall|x: A| all.contains(x) <==> s.contains(x) by {
            if all.contains(x) {
                let i = choose|i: int| 0 <= i < all.len() && all[i] == x;
                if i < rest.len() {
                    assert(rest[i] == x);
                    assert(rest.contains(x));
                    assert(front.contains(x));
                    let j = choose|j: int| 0 <= j < front.len() && front[j] == x;
                    assert(s[j] == x);
                } else {
                    assert(s[s.len() - 1] == x);
                }
            }
            if s.contains(x) {
                let j = choose|j: int| 0 <= j < s.len() && s[j] == x;
                if j < front.len() {
                    assert(front[j] == x);
                    assert(front.contains(x));
                }
                if rest.contains(x) {
                    let i = choose|i: int| 0 <= i < rest.len() && rest[i] == x;
                    assert(all[i] == x);
                } else {
                    assert(all[all.len() - 1] == x);
                }
            }
        }
    }
}

/// The first place at which `x` stands in `s`, or the length of `s` where it stands nowhere.
pub open spec fn first_position<A>(s: Seq<A>, x: A) -> int
    decreases s.len(),
{
    if s.len() == 0 {
        0
    } else {
        let before = first_position(s.drop_last(), x);
        if before < s.len() - 1 {
            before
        } else if s.last() == x {
            s.len() - 1
        } else {
            s.len() as int
        }
    }
}

/// `first_position` is a place of `x` before which `x` does not stand, and the
/// length exactly where `x` is absent.
pub proof fn lemma_first_position<A>(s: Seq<A>, x: A)
    ensures
        0 <= first_position(s, x) <= s.len(),
        first_position(s, x) < s.len() ==> s[first_position(s, x)] == x,
        forall|j: int| 0 <= j < first_position(s, x) ==> s[j] != x,
        first_position(s, x) < s.len() <==> s.contains(x),
    decreases s.len(),
{
    if s.len() > 0 {
        let front = s.drop_last();
        lemma_first_position(front, x);
        let at = first_position(s, x);
        assert(0 <= at <= s.len());
        assert forall|j: int| 0 <= j < at implies s[j] != x by {
            if j < front.len() {
                assert(front[j] == s[j]);
            }
        }
        if at < front.len() {
            assert(front[at] == s[at]);
        }
        if s.contains(x) {
            let j = choose|j: int| 0 <= j < s.len() && s[j] == x;
            if j < front.len() {
                assert(front[j] == x);
            }
        }
    }
}

/// A place before which `x` does not stand, and which holds `x` or is the
/// length of `s`, is the first position of `x`.
pub proof fn lemma_first_position_is<A>(s: Seq<A>, x: A, at: int)
    requires
        0 <= at <= s.len(),
        forall|j: int| 0 <= j < at ==> s[j] != x,
        at < s.len() ==> s[at] == x,
    ensures
        first_position(s, x) == at,
{
    lemma_first_position(s, x);
}

/// Counting one position further adds one exactly where that position is accepted.
pub proof fn lemma_count_step(n: nat, keep: spec_fn(int) -> bool)
    ensures
        count(n + 1, keep) == count(n, keep) + if keep(n as int) {
            1nat
        } else {
            0nat
        },
        count(n, keep) <= n,
{
    lemma_positions(n, keep);
    assert(positions(n + 1, keep) == if keep(n as int) {
        positions(n, keep).push(n as int)
    } else {
        positions(n, keep)
    });
}

/// One value further, the occurrences of that value are one more, and those
/// of every other value are as before.
pub proof fn lemma_occurrences_push<A>(s: Seq<A>, last: A, x: A)
    ensures
        occurrences(s.push(last), x) == occurrences(s, x) + if last == x {
            1nat
        } else {
            0nat
        },
        occurrences(s, x) <= s.len(),
{
    lemma_count_step(s.len(), stands_at(s.push(last), x));
    lemma_count_step(s.len(), stands_at(s, x));
    assert forall|p: int| 0 <= p < s.len() implies #[trigger] stands_at(s.push(last), x)(p)
        == stands_at(s, x)(p) by {
        assert(s.push(last)[p] == s[p]);
    }
    lemma_positions_congruent(s.len(), stands_at(s.push(last), x), stands_at(s, x));
}

/// A value that does not stand in a sequence occurs in it no times.
pub proof fn lemma_occurrences_absent<A>(s: Seq<A>, x: A)
    requires
        !s.contains(x),
    ensures
        occurrences(s, x) == 0,
{
    lemma_positions(s.len(), stands_at(s, x));
    if positions(s.len(), stands_at(s, x)).len() > 0 {
        let p = positions(s.len(), stands_at(s, x))[0];
        assert(stands_at(s, x)(p));
        assert(s[p] == x);
    }
}

/// One value further, the distinct values gain that value at their end
/// unless they hold it already.
pub proof fn lemma_distinct_push<A>(s: Seq<A>, last: A)
    ensures
        distinct(s.push(last)) == if distinct(s).contains(last) {
            distinct(s)
        } else {
            distinct(s).push(last)
        },
{
    assert(s.push(last).drop_last() =~= s);
}

/// The least position below `n` that `keep` accepts, or `n` where it accepts none.
pub open spec fn first_where(n: nat, keep: spec_fn(int) -> bool) -> int {
    if positions(n, keep).len() == 0 {
        n as int
    } else {
        positions(n, keep)[0]
    }
}

/// A position that `keep` accepts, or `n`, before which `keep` accepts
/// nothing, is the least accepted position.
pub proof fn lemma_first_where_is(n: nat, keep: spec_fn(int) -> bool, at: int)
    requires
        0 <= at <= n,
        forall|j: int| 0 <= j < at ==> !#[trigger] keep(j),
        at < n ==> keep(at),
    ensures
        first_where(n, keep) == at,
{
    lemma_positions(n, keep);
    let listed = positions(n, keep);
    if listed.len() > 0 {
        let p = listed[0];
        assert(keep(p));
        if at < n {
            assert(listed.contains(at));
            let i = choose|i: int| 0 <= i < listed.len() && listed[i] == at;
            if i > 0 {
                assert(listed[0] < listed[i]);
            }
        }
    } else {
        if at < n {
            assert(listed.contains(at));
        }
    }
}

/// The least accepted position is accepted, nothing before it is, and it
/// is `n` exactly where nothing below `n` is accepted.
pub proof fn lemma_first_where(n: nat, keep: spec_fn(int) -> bool)
    ensures
        0 <= first_where(n, keep) <= n,
        first_where(n, keep) < n ==> keep(first_where(n, keep)),
        forall|j: int| 0 <= j < first_where(n, keep) ==> !#[trigger] keep(j),
{
    lemma_positions(n, keep);
    let listed = positions(n, keep);
    assert forall|j: int| 0 <= j < first_where(n, keep) implies !#[trigger] keep(j) by {
        if keep(j) {
            assert(listed.contains(j));
            let i = choose|i: int| 0 <= i < listed.len() && listed[i] == j;
            if i > 0 {
                assert(listed[0] < listed[i]);
            }
        }
    }
}

/// The sum of `f` over the positions below `n`.
pub open spec fn sum(n: nat, f: spec_fn(int) -> int) -> int
    decreases n,
{
    if n == 0 {
        0
    } else {
        sum((n - 1) as nat, f) + f(n - 1)
    }
}

/// Where `g` is `f` but for being one higher at the single position `at`,
/// its sum is one higher where `at` is below `n`, and the same where not.
pub proof fn lemma_sum_bump(n: nat, f: spec_fn(int) -> int, g: spec_fn(int) -> int, at: int)
    requires
        forall|j: int| 0 <= j < n ==> #[trigger] g(j) == f(j) + if j == at {
            1int
        } else {
            0int
        },
    ensures
        sum(n, g) == sum(n, f) + if 0 <= at < n {
            1int
        } else {
            0int
        },
    decreases n,
{
    if n > 0 {
        lemma_sum_bump((n - 1) as nat, f, g, at);
        assert(g(n - 1) == f(n - 1) + if n - 1 == at {
            1int
        } else {
            0int
        });
    }
}

/// Functions that agree below `n` have the same sum.
pub proof fn lemma_sum_congruent(n: nat, f: spec_fn(int) -> int, g: spec_fn(int) -> int)
    requires
        forall|j: int| 0 <= j < n ==> #[trigger] g(j) == f(j),
    ensures
        sum(n, g) == sum(n, f),
    decreases n,
{
    if n > 0 {
        lemma_sum_congruent((n - 1) as nat, f, g);
        assert(g(n - 1) == f(n - 1));
    }
}

} // verus!
