//! Aggregation over parsed rules: how often each destination occurs.
use vstd::prelude::*;
use vstd::string::*;

use crate::parser::is_keyword;

verus! {

/// The texts of a sequence of strings.
pub open spec fn texts(v: Seq<String>) -> Seq<Seq<char>> {
    v.map_values(|s: String| s@)
}

/// How many times `k` occurs in `s`.
pub open spec fn count_in(s: Seq<Seq<char>>, k: Seq<char>) -> nat
    decreases s.len(),
{
    if s.len() == 0 {
        0
    } else {
        count_in(s.drop_last(), k) + if s.last() == k {
            1nat
        } else {
            0nat
        }
    }
}

/// The catch-all destination, which is not counted.
pub open spec fn is_star(k: Seq<char>) -> bool {
    k == seq!['*']
}

proof fn lemma_count_in_bound(s: Seq<Seq<char>>, k: Seq<char>)
    ensures
        count_in(s, k) <= s.len(),
    decreases s.len(),
{
    if s.len() > 0 {
        lemma_count_in_bound(s.drop_last(), k);
    }
}

proof fn lemma_count_in_push(s: Seq<Seq<char>>, x: Seq<char>, k: Seq<char>)
    ensures
        count_in(s.push(x), k) == count_in(s, k) + if x == k {
            1nat
        } else {
            0nat
        },
{
    assert(s.push(x).drop_last() =~= s);
}

fn same_text(a: &String, b: &String) -> (r: bool)
    ensures
        r == (a@ == b@),
{
    *a == *b
}

/// The distinct destinations other than `*` in `dests`, in order of first
/// occurrence, each with the number of times it occurs.
fn tally(dests: &Vec<String>) -> (r: (Vec<String>, Vec<usize>))
    ensures
        r.0.len() == r.1.len(),
        forall|a: int, b: int| 0 <= a < b < r.0.len() ==> r.0@[a]@ != r.0@[b]@,
        forall|a: int|
            0 <= a < r.0.len() ==> {
                &&& !is_star(#[trigger] r.0@[a]@)
                &&& r.1@[a] == count_in(texts(dests@), r.0@[a]@)
            },
        forall|d: Seq<char>|
            !is_star(d) && #[trigger] count_in(texts(dests@), d) > 0 ==> exists|a: int|
                0 <= a < r.0.len() && r.0@[a]@ == d,
{
    let ghost all = texts(dests@);
    let mut keys: Vec<String> = Vec::new();
    let mut counts: Vec<usize> = Vec::new();
    let n = dests.len();
    let mut i: usize = 0;
    proof {
        assert(all.subrange(0, 0).len() == 0);
    }
    while i < n
        invariant
            n == dests.len(),
            all == texts(dests@),
            i <= n,
            keys.len() == counts.len(),
            forall|a: int, b: int| 0 <= a < b < keys.len() ==> keys@[a]@ != keys@[b]@,
            forall|a: int|
                0 <= a < keys.len() ==> {
                    &&& !is_star(#[trigger] keys@[a]@)
                    &&& counts@[a] == count_in(all.subrange(0, i as int), keys@[a]@)
                },
            forall|d: Seq<char>|
                !is_star(d) && #[trigger] count_in(all.subrange(0, i as int), d) > 0 ==> exists|a: int|
                    0 <= a < keys.len() && keys@[a]@ == d,
        decreases n - i,
    {
        let ghost prev = all.subrange(0, i as int);
        let ghost x = dests@[i as int]@;
        let ghost next = prev.push(x);
        let ghost old_keys = keys@;
        let ghost old_counts = counts@;
        proof {
            reveal_strlit("*");
            assert("*"@ =~= seq!['*']);
            assert(next =~= all.subrange(0, i + 1));
        }
        let d = &dests[i];
        let ghost mut w: int = 0;
        if !is_keyword(d, "*") {
            let mut j: usize = 0;
            while j < keys.len() && !same_text(&keys[j], d)
                invariant
                    j <= keys.len(),
                    forall|a: int| 0 <= a < j ==> keys@[a]@ != d@,
                decreases keys.len() - j,
            {
                j += 1;
            }
            if j < keys.len() {
                proof {
                    lemma_count_in_bound(prev, keys@[j as int]@);
                }
                let c = counts[j] + 1;
                counts.set(j, c);
                proof {
                    w = j as int;
                }
            } else {
                proof {
                    if count_in(prev, x) > 0 {
                        let a = choose|a: int| 0 <= a < keys.len() && keys@[a]@ == x;
                        assert(keys@[a]@ != d@);
                    }
                    lemma_count_in_push(prev, x, x);
                }
                keys.push(d.clone());
                counts.push(1);
                proof {
                    w = keys.len() - 1;
                }
            }
        }
        proof {
            assert forall|a: int| 0 <= a < keys.len() implies counts@[a] == count_in(next, #[trigger] keys@[a]@) by {
                lemma_count_in_push(prev, x, keys@[a]@);
                if a < old_keys.len() {
                    assert(keys@[a] == old_keys[a]);
                }
            }
            assert forall|k: Seq<char>|
                !is_star(k) && #[trigger] count_in(next, k) > 0 implies exists|a: int|
                    0 <= a < keys.len() && keys@[a]@ == k by {
                lemma_count_in_push(prev, x, k);
                if count_in(prev, k) > 0 {
                    let a = choose|a: int| 0 <= a < old_keys.len() && old_keys[a]@ == k;
                    assert(keys@[a] == old_keys[a]);
                } else {
                    assert(k == x);
                    assert(keys@[w]@ == k);
                }
            }
        }
        i += 1;
    }
    proof {
        assert(all.subrange(0, n as int) =~= all);
    }
    (keys, counts)
}

/// Whether some entry of `r` is for `k`.
pub open spec fn lists(r: Seq<(String, usize)>, k: Seq<char>) -> bool {
    exists|i: int| 0 <= i < r.len() && r[i].0@ == k
}

/// Whether the counts of `r` never decrease.
pub open spec fn ordered_by_count(r: Seq<(String, usize)>) -> bool {
    forall|i: int, j: int| 0 <= i < j < r.len() ==> r[i].1 <= r[j].1
}

/// Inserts `(key, c)` after every entry whose count is at most `c`.
fn insert_by_count(r: &mut Vec<(String, usize)>, key: String, c: usize)
    requires
        ordered_by_count(old(r)@),
    ensures
        ordered_by_count(final(r)@),
        exists|p: int| 0 <= p <= old(r).len() && final(r)@ == old(r)@.insert(p, (key, c)),
{
    let mut p: usize = 0;
    while p < r.len() && r[p].1 <= c
        invariant
            p <= r.len(),
            forall|i: int| 0 <= i < p ==> r@[i].1 <= c,
        decreases r.len() - p,
    {
        p += 1;
    }
    let ghost old_r = r@;
    r.insert(p, (key, c));
    proof {
        assert forall|i: int, j: int| 0 <= i < j < r.len() implies r@[i].1 <= r@[j].1 by {
            if j > p {
                assert(r@[j] == old_r[j - 1]);
                if i < p {
                    assert(r@[i] == old_r[i]);
                    assert(old_r[i].1 <= c);
                    assert(c < old_r[p as int].1);
                } else if i > p {
                    assert(r@[i] == old_r[i - 1]);
                } else {
                    assert(c < old_r[p as int].1);
                }
            } else if j == p {
                assert(r@[i] == old_r[i]);
            } else {
                assert(r@[i] == old_r[i]);
                assert(r@[j] == old_r[j]);
            }
        }
    }
}

/// Every destination other than `*` that occurs at least twice in `dests`,
/// once each, with the number of times it occurs, fewest first.
pub fn repeated_destinations(dests: &Vec<String>) -> (r: Vec<(String, usize)>)
    ensures
        forall|i: int, j: int| 0 <= i < j < r.len() ==> r@[i].0@ != r@[j].0@,
        ordered_by_count(r@),
        forall|i: int|
            0 <= i < r.len() ==> {
                &&& !is_star(#[trigger] r@[i].0@)
                &&& r@[i].1 == count_in(texts(dests@), r@[i].0@)
                &&& r@[i].1 >= 2
            },
        forall|d: Seq<char>| !is_star(d) && #[trigger] count_in(texts(dests@), d) >= 2 ==> lists(r@, d),
{
    let ghost all = texts(dests@);
    let (keys, counts) = tally(dests);
    let mut r: Vec<(String, usize)> = Vec::new();
    let mut m: usize = 0;
    while m < keys.len()
        invariant
            all == texts(dests@),
            keys.len() == counts.len(),
            m <= keys.len(),
            forall|a: int, b: int| 0 <= a < b < keys.len() ==> keys@[a]@ != keys@[b]@,
            forall|a: int|
                0 <= a < keys.len() ==> {
                    &&& !is_star(#[trigger] keys@[a]@)
                    &&& counts@[a] == count_in(all, keys@[a]@)
                },
            ordered_by_count(r@),
            forall|i: int|
                0 <= i < r.len() ==> {
                    &&& !is_star(#[trigger] r@[i].0@)
                    &&& r@[i].1 == count_in(all, r@[i].0@)
                    &&& r@[i].1 >= 2
                    &&& exists|a: int| 0 <= a < m && keys@[a]@ == r@[i].0@
                },
            forall|i: int, j: int| 0 <= i < j < r.len() ==> r@[i].0@ != r@[j].0@,
            forall|a: int| 0 <= a < m && counts@[a] >= 2 ==> lists(r@, #[trigger] keys@[a]@),
        decreases keys.len() - m,
    {
        let c = counts[m];
        if c >= 2 {
            let ghost old_r = r@;
            let ghost k = keys@[m as int]@;
            proof {
                assert forall|i: int| 0 <= i < old_r.len() implies #[trigger] old_r[i].0@ != k by {
                    let a = choose|a: int| 0 <= a < m && keys@[a]@ == old_r[i].0@;
                }
            }
            insert_by_count(&mut r, keys[m].clone(), c);
            proof {
                let p = choose|p: int| 0 <= p <= old_r.len() && r@ == old_r.insert(p, (keys@[m as int], c));
                assert(r@[p].0@ == k);
                assert forall|i: int|
                    0 <= i < r.len() implies {
                        &&& !is_star(#[trigger] r@[i].0@)
                        &&& r@[i].1 == count_in(all, r@[i].0@)
                        &&& r@[i].1 >= 2
                        &&& exists|a: int| 0 <= a < m + 1 && keys@[a]@ == r@[i].0@
                    } by {
                    if i < p {
                        assert(r@[i] == old_r[i]);
                    } else if i > p {
                        assert(r@[i] == old_r[i - 1]);
                    } else {
                        assert(keys@[m as int]@ == r@[i].0@);
                    }
                }
                assert forall|i: int, j: int| 0 <= i < j < r.len() implies r@[i].0@ != r@[j].0@ by {
                    if i < p && j < p {
                        assert(r@[i] == old_r[i] && r@[j] == old_r[j]);
                    } else if i < p && j == p {
                        assert(r@[i] == old_r[i]);
                    } else if i < p {
                        assert(r@[i] == old_r[i] && r@[j] == old_r[j - 1]);
                    } else if i == p {
                        assert(r@[j] == old_r[j - 1]);
                    } else {
                        assert(r@[i] == old_r[i - 1] && r@[j] == old_r[j - 1]);
                    }
                }
                assert forall|a: int| 0 <= a < m + 1 && counts@[a] >= 2 implies lists(r@, #[trigger] keys@[a]@) by {
                    if a < m {
                        let i = choose|i: int| 0 <= i < old_r.len() && old_r[i].0@ == keys@[a]@;
                        if i < p {
                            assert(r@[i] == old_r[i]);
                        } else {
                            assert(r@[i + 1] == old_r[i]);
                        }
                    } else {
                        assert(r@[p].0@ == keys@[a]@);
                    }
                }
            }
        } else {
            proof {
                assert forall|a: int| 0 <= a < m + 1 && counts@[a] >= 2 implies lists(r@, #[trigger] keys@[a]@) by {
                    assert(a < m);
                }
            }
        }
        m += 1;
    }
    proof {
        assert forall|d: Seq<char>| !is_star(d) && #[trigger] count_in(all, d) >= 2 implies lists(r@, d) by {
            let a = choose|a: int| 0 <= a < keys.len() && keys@[a]@ == d;
            assert(counts@[a] >= 2);
        }
    }
    r
}

} // verus!
