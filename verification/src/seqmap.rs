//! Key-ordered vectors of `(key, value)` pairs: the ordered maps that the
//! reliable-stream state keeps its frames in.
use vstd::prelude::*;

verus! {

/// Keys strictly increase along the sequence.
pub open spec fn keys_increasing<T>(s: Seq<(u64, T)>) -> bool {
    forall|i: int, j: int| 0 <= i < j < s.len() ==> s[i].0 < s[j].0
}

/// Every key is above `k`.
pub open spec fn keys_above<T>(s: Seq<(u64, T)>, k: u64) -> bool {
    forall|i: int| 0 <= i < s.len() ==> s[i].0 > k
}

/// Number of leading entries whose key is below `k`.
pub open spec fn count_below<T>(s: Seq<(u64, T)>, k: u64) -> nat
    decreases s.len(),
{
    if s.len() == 0 || s[0].0 >= k {
        0
    } else {
        1 + count_below(s.drop_first(), k)
    }
}

/// `s` with `(k, v)` put in key order. An entry already filed under `k` is
/// replaced when `replace` holds and kept otherwise.
pub open spec fn sorted_insert<T>(s: Seq<(u64, T)>, k: u64, v: T, replace: bool) -> Seq<(u64, T)>
    decreases s.len(),
{
    if s.len() == 0 {
        seq![(k, v)]
    } else if s[0].0 == k {
        if replace {
            s.update(0, (k, v))
        } else {
            s
        }
    } else if s[0].0 > k {
        seq![(k, v)] + s
    } else {
        seq![s[0]] + sorted_insert(s.drop_first(), k, v, replace)
    }
}

pub proof fn lemma_count_below<T>(s: Seq<(u64, T)>, k: u64)
    requires
        keys_increasing(s),
    ensures
        count_below(s, k) <= s.len(),
        forall|i: int| 0 <= i < count_below(s, k) ==> s[i].0 < k,
        forall|i: int| count_below(s, k) <= i < s.len() ==> s[i].0 >= k,
    decreases s.len(),
{
    if s.len() > 0 && s[0].0 < k {
        lemma_count_below(s.drop_first(), k);
        assert forall|i: int| 0 <= i < count_below(s, k) implies s[i].0 < k by {
            if i > 0 {
                assert(s[i] == s.drop_first()[i - 1]);
            }
        }
        assert forall|i: int| count_below(s, k) <= i < s.len() implies s[i].0 >= k by {
            assert(s[i] == s.drop_first()[i - 1]);
        }
    } else if s.len() > 0 {
        assert forall|i: int| count_below(s, k) <= i < s.len() implies s[i].0 >= k by {
            if i > 0 {
                assert(s[0].0 < s[i].0);
            }
        }
    }
}

/// The prefix/suffix split at `i` characterises `count_below`.
pub proof fn lemma_count_below_unique<T>(s: Seq<(u64, T)>, k: u64, i: int)
    requires
        keys_increasing(s),
        0 <= i <= s.len(),
        forall|j: int| 0 <= j < i ==> s[j].0 < k,
        i == s.len() || s[i].0 >= k,
    ensures
        count_below(s, k) == i,
{
    lemma_count_below(s, k);
    let c = count_below(s, k) as int;
    if c < i {
        assert(s[c].0 < k);
    } else if c > i {
        assert(s[i].0 < k);
    }
}

pub proof fn lemma_sorted_insert<T>(s: Seq<(u64, T)>, k: u64, v: T, replace: bool)
    requires
        keys_increasing(s),
    ensures
        ({
            let i = count_below(s, k) as int;
            sorted_insert(s, k, v, replace) == (if i < s.len() && s[i].0 == k {
                if replace {
                    s.update(i, (k, v))
                } else {
                    s
                }
            } else {
                s.insert(i, (k, v))
            })
        }),
        keys_increasing(sorted_insert(s, k, v, replace)),
    decreases s.len(),
{
    lemma_count_below(s, k);
    if s.len() == 0 {
        assert(s.insert(0, (k, v)) =~= seq![(k, v)]);
    } else if s[0].0 == k {
    } else if s[0].0 > k {
        assert(s.insert(0, (k, v)) =~= seq![(k, v)] + s);
    } else {
        let t = s.drop_first();
        lemma_sorted_insert(t, k, v, replace);
        lemma_count_below(t, k);
        let i = count_below(s, k) as int;
        let r = sorted_insert(t, k, v, replace);
        if i < s.len() && s[i].0 == k {
            if replace {
                assert(seq![s[0]] + t.update(i - 1, (k, v)) =~= s.update(i, (k, v)));
            } else {
                assert(seq![s[0]] + t =~= s);
            }
        } else {
            assert(seq![s[0]] + t.insert(i - 1, (k, v)) =~= s.insert(i, (k, v)));
        }
        let out = seq![s[0]] + r;
        assert forall|a: int, b: int| 0 <= a < b < out.len() implies out[a].0 < out[b].0 by {
            if a == 0 {
                if b > 0 {
                    assert(out[b] == r[b - 1]);
                    // every key of r is either k or a key of t; all exceed s[0].0
                    let j = b - 1;
                    let ci = count_below(t, k) as int;
                    if ci < t.len() && t[ci].0 == k {
                        if replace {
                            assert(r == t.update(ci, (k, v)));
                            if j != ci {
                                assert(r[j] == t[j]);
                                assert(s[j + 1] == t[j]);
                            }
                        } else {
                            assert(r == t);
                            assert(s[j + 1] == t[j]);
                        }
                    } else {
                        assert(r == t.insert(ci, (k, v)));
                        if j < ci {
                            assert(r[j] == t[j]);
                            assert(s[j + 1] == t[j]);
                        } else if j > ci {
                            assert(r[j] == t[j - 1]);
                            assert(s[j] == t[j - 1]);
                        }
                    }
                }
            } else {
                assert(out[a] == r[a - 1]);
                assert(out[b] == r[b - 1]);
            }
        }
    }
}

/// Index of the first entry whose key is not below `k`.
pub fn lower_bound<T>(v: &Vec<(u64, T)>, k: u64) -> (i: usize)
    requires
        keys_increasing(v@),
    ensures
        i == count_below(v@, k),
        i <= v@.len(),
{
    let mut i: usize = 0;
    while i < v.len() && v[i].0 < k
        invariant
            keys_increasing(v@),
            i <= v@.len(),
            forall|j: int| 0 <= j < i ==> v@[j].0 < k,
        decreases v@.len() - i,
    {
        i = i + 1;
    }
    proof {
        lemma_count_below_unique(v@, k, i as int);
    }
    i
}

/// Put `(k, val)` in key order; an entry already under `k` is replaced when `replace` holds.
pub fn insert_sorted<T>(v: &mut Vec<(u64, T)>, k: u64, val: T, replace: bool)
    requires
        keys_increasing(old(v)@),
    ensures
        final(v)@ == sorted_insert(old(v)@, k, val, replace),
        keys_increasing(final(v)@),
{
    proof {
        lemma_sorted_insert(v@, k, val, replace);
    }
    let i = lower_bound(v, k);
    if i < v.len() && v[i].0 == k {
        if replace {
            v.set(i, (k, val));
        }
    } else {
        v.insert(i, (k, val));
    }
}

/// Some entry of `s` is filed under `k`.
pub open spec fn has_key<T>(s: Seq<(u64, T)>, k: u64) -> bool {
    exists|i: int| 0 <= i < s.len() && #[trigger] s[i].0 == k
}

/// The map that `s` stands for: each key to the value filed under it.
pub open spec fn key_map<T>(s: Seq<(u64, T)>) -> Map<u64, T> {
    Map::new(|k: u64| has_key(s, k), |k: u64| s[choose|i: int| 0 <= i < s.len() && #[trigger] s[i].0 == k].1)
}

pub proof fn lemma_key_map_at<T>(s: Seq<(u64, T)>, i: int)
    requires
        keys_increasing(s),
        0 <= i < s.len(),
    ensures
        key_map(s).contains_key(s[i].0),
        key_map(s)[s[i].0] == s[i].1,
{
    assert(has_key(s, s[i].0));
    let j = choose|j: int| 0 <= j < s.len() && #[trigger] s[j].0 == s[i].0;
    if j < i {
        assert(s[j].0 < s[i].0);
    } else if j > i {
        assert(s[i].0 < s[j].0);
    }
}

/// A map that holds exactly the entries of `s` is the map `s` stands for.
pub proof fn lemma_key_map_eq<T>(s: Seq<(u64, T)>, m: Map<u64, T>)
    requires
        keys_increasing(s),
        forall|i: int| 0 <= i < s.len() ==> #[trigger] m.contains_key(s[i].0) && m[s[i].0] == s[i].1,
        forall|x: u64| #[trigger] m.contains_key(x) ==> has_key(s, x),
    ensures
        key_map(s) == m,
{
    assert forall|x: u64| #[trigger] key_map(s).contains_key(x) <==> m.contains_key(x) by {
        if key_map(s).contains_key(x) {
            let i = choose|i: int| 0 <= i < s.len() && #[trigger] s[i].0 == x;
            assert(m.contains_key(s[i].0));
        }
    }
    assert forall|x: u64| #[trigger] key_map(s).contains_key(x) implies key_map(s)[x] == m[x] by {
        let i = choose|i: int| 0 <= i < s.len() && #[trigger] s[i].0 == x;
        lemma_key_map_at(s, i);
        assert(m.contains_key(s[i].0));
    }
    assert(key_map(s) =~= m);
}

/// The map of an ordered sequence has one key per entry.
pub proof fn lemma_key_map_len<T>(s: Seq<(u64, T)>)
    requires
        keys_increasing(s),
    ensures
        key_map(s).dom().finite(),
        key_map(s).dom().len() == s.len(),
    decreases s.len(),
{
    if s.len() == 0 {
        assert(key_map(s).dom() =~= Set::<u64>::empty());
    } else {
        let t = s.drop_last();
        assert(keys_increasing(t));
        lemma_key_map_len(t);
        let l = s.last().0;
        assert forall|x: u64| #[trigger] key_map(s).dom().contains(x) <==> key_map(t).dom().insert(l).contains(x) by {
            if key_map(s).dom().contains(x) {
                let i = choose|i: int| 0 <= i < s.len() && #[trigger] s[i].0 == x;
                if i < t.len() {
                    assert(t[i].0 == x);
                    assert(has_key(t, x));
                }
            }
            if key_map(t).dom().contains(x) {
                let i = choose|i: int| 0 <= i < t.len() && #[trigger] t[i].0 == x;
                assert(s[i].0 == x);
                assert(has_key(s, x));
            }
            if x == l {
                assert(s[s.len() - 1].0 == x);
                assert(has_key(s, x));
            }
        }
        assert(key_map(s).dom() =~= key_map(t).dom().insert(l));
        if key_map(t).dom().contains(l) {
            let i = choose|i: int| 0 <= i < t.len() && #[trigger] t[i].0 == l;
            assert(s[i].0 < s[s.len() - 1].0);
        }
    }
}

/// Dropping the entries below `k` leaves the map's entries at or above `k`.
pub proof fn lemma_key_map_skip_below<T>(s: Seq<(u64, T)>, k: u64)
    requires
        keys_increasing(s),
    ensures
        key_map(s.skip(count_below(s, k) as int)) == key_map(s).restrict(Set::new(|x: u64| x >= k)),
        key_map(s.take(count_below(s, k) as int)) == key_map(s).restrict(Set::new(|x: u64| x < k)),
{
    lemma_count_below(s, k);
    let c = count_below(s, k) as int;
    let hi = s.skip(c);
    let lo = s.take(c);
    let mhi = key_map(s).restrict(Set::new(|x: u64| x >= k));
    let mlo = key_map(s).restrict(Set::new(|x: u64| x < k));
    assert(keys_increasing(hi));
    assert(keys_increasing(lo));
    assert forall|i: int| 0 <= i < hi.len() implies #[trigger] mhi.contains_key(hi[i].0) && mhi[hi[i].0] == hi[i].1 by {
        assert(hi[i] == s[c + i]);
        lemma_key_map_at(s, c + i);
    }
    assert forall|x: u64| #[trigger] mhi.contains_key(x) implies has_key(hi, x) by {
        let i = choose|i: int| 0 <= i < s.len() && #[trigger] s[i].0 == x;
        assert(i >= c);
        assert(hi[i - c].0 == x);
    }
    lemma_key_map_eq(hi, mhi);
    assert forall|i: int| 0 <= i < lo.len() implies #[trigger] mlo.contains_key(lo[i].0) && mlo[lo[i].0] == lo[i].1 by {
        assert(lo[i] == s[i]);
        lemma_key_map_at(s, i);
    }
    assert forall|x: u64| #[trigger] mlo.contains_key(x) implies has_key(lo, x) by {
        let i = choose|i: int| 0 <= i < s.len() && #[trigger] s[i].0 == x;
        assert(i < c);
        assert(lo[i].0 == x);
    }
    lemma_key_map_eq(lo, mlo);
}

/// Inserting in key order is inserting into the map, except that an entry already filed
/// under the key stays when `replace` does not hold.
pub proof fn lemma_key_map_sorted_insert<T>(s: Seq<(u64, T)>, k: u64, v: T, replace: bool)
    requires
        keys_increasing(s),
    ensures
        key_map(sorted_insert(s, k, v, replace)) == (if key_map(s).contains_key(k) && !replace {
            key_map(s)
        } else {
            key_map(s).insert(k, v)
        }),
{
    lemma_sorted_insert(s, k, v, replace);
    lemma_count_below(s, k);
    let i = count_below(s, k) as int;
    let r = sorted_insert(s, k, v, replace);
    let present = i < s.len() && s[i].0 == k;
    if present {
        lemma_key_map_at(s, i);
    } else {
        if key_map(s).contains_key(k) {
            let j = choose|j: int| 0 <= j < s.len() && #[trigger] s[j].0 == k;
            if j < i {
                assert(s[j].0 < k);
            } else if j > i {
                assert(s[i].0 < s[j].0);
            }
        }
    }
    let m = if key_map(s).contains_key(k) && !replace { key_map(s) } else { key_map(s).insert(k, v) };
    assert forall|j: int| 0 <= j < r.len() implies #[trigger] m.contains_key(r[j].0) && m[r[j].0] == r[j].1 by {
        if present {
            if j == i {
                if !replace {
                    assert(r[j] == s[j]);
                }
            } else {
                assert(r[j] == s[j]);
                lemma_key_map_at(s, j);
                if j < i {
                    assert(s[j].0 < k);
                } else {
                    assert(s[i].0 < s[j].0);
                }
            }
        } else if j < i {
            assert(r[j] == s[j]);
            lemma_key_map_at(s, j);
        } else if j > i {
            assert(r[j] == s[j - 1]);
            lemma_key_map_at(s, j - 1);
        }
    }
    assert forall|x: u64| #[trigger] m.contains_key(x) implies has_key(r, x) by {
        if x == k {
            assert(r[i].0 == k);
        } else {
            let j = choose|j: int| 0 <= j < s.len() && #[trigger] s[j].0 == x;
            if present {
                assert(r[j] == s[j]);
            } else if j < i {
                assert(r[j] == s[j]);
            } else {
                assert(r[j + 1] == s[j]);
            }
        }
    }
    lemma_key_map_eq(r, m);
}

/// Sum of a sequence of integers.
pub open spec fn sum_u64(s: Seq<u64>) -> nat
    decreases s.len(),
{
    if s.len() == 0 {
        0
    } else {
        sum_u64(s.drop_last()) + (s.last() as nat)
    }
}

pub proof fn lemma_sum_u64_bound(s: Seq<u64>)
    ensures
        sum_u64(s) <= s.len() * (u64::MAX as nat),
    decreases s.len(),
{
    if s.len() > 0 {
        lemma_sum_u64_bound(s.drop_last());
    }
}

pub proof fn lemma_sum_u64_push(s: Seq<u64>, x: u64)
    ensures
        sum_u64(s.push(x)) == sum_u64(s) + x,
{
    assert(s.push(x).drop_last() =~= s);
}

} // verus!
