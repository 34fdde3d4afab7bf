//! The deduplication and ranking transform.
//!
//! Raw descriptors are parsed, then stable-sorted descending by signal
//! strength, then deduplicated by ssid keeping the first occurrence under
//! that order (so each distinct ssid keeps its strongest-observed entry,
//! ties resolved toward the earlier source entry), and finally reversed:
//! the consumer prepends entries one by one, so the transform hands the
//! result back weakest-first on purpose, and repeated prepending yields a
//! strongest-first display.

use vstd::prelude::*;

use crate::access_point::{AccessPoint, ApDescriptor, ApModel, complete, parse_desc, parsed_of};

verus! {

/// The models of a sequence of access points.
pub open spec fn models(s: Seq<AccessPoint>) -> Seq<ApModel> {
    s.map_values(|a: AccessPoint| a@)
}

/// Strength never increases from left to right.
pub open spec fn sorted_desc(s: Seq<ApModel>) -> bool {
    forall|i: int, j: int| 0 <= i && i < j && j < s.len() ==> s[i].strength >= s[j].strength
}

/// No two entries share an ssid.
pub open spec fn unique_ssids(s: Seq<ApModel>) -> bool {
    forall|i: int, j: int| 0 <= i && i < j && j < s.len() ==> s[i].ssid != s[j].ssid
}

/// Some entry carries the given ssid.
pub open spec fn has_ssid(s: Seq<ApModel>, ssid: Seq<char>) -> bool {
    exists|i: int| 0 <= i < s.len() && s[i].ssid == ssid
}

/// Some entry carries the ssid of `x` with at least its strength.
pub open spec fn covered(s: Seq<ApModel>, x: ApModel) -> bool {
    exists|j: int| 0 <= j < s.len() && s[j].ssid == x.ssid && s[j].strength >= x.strength
}

/// Inserts `x` into a descending run, after every strictly stronger entry,
/// so that a stable sort falls out of repeated insertion.
pub open spec fn insert_desc(x: ApModel, s: Seq<ApModel>) -> Seq<ApModel>
    decreases s.len(),
{
    if s.len() == 0 {
        seq![x]
    } else if s.first().strength > x.strength {
        seq![s.first()] + insert_desc(x, s.drop_first())
    } else {
        seq![x] + s
    }
}

/// Stable sort, strongest first: equal strengths keep their source order.
pub open spec fn sort_desc(s: Seq<ApModel>) -> Seq<ApModel>
    decreases s.len(),
{
    if s.len() == 0 {
        Seq::empty()
    } else {
        insert_desc(s.first(), sort_desc(s.drop_first()))
    }
}

/// Keeps the first occurrence of each ssid, in order.
pub open spec fn dedup_first(s: Seq<ApModel>) -> Seq<ApModel>
    decreases s.len(),
{
    if s.len() == 0 {
        Seq::empty()
    } else if has_ssid(s.drop_last(), s.last().ssid) {
        dedup_first(s.drop_last())
    } else {
        dedup_first(s.drop_last()).push(s.last())
    }
}

/// The whole transform: sort strongest-first, keep the first entry of each
/// ssid, then reverse for the prepending consumer.
pub open spec fn dedup_rank(s: Seq<ApModel>) -> Seq<ApModel> {
    dedup_first(sort_desc(s)).reverse()
}

proof fn lemma_insert_desc_len(x: ApModel, s: Seq<ApModel>)
    ensures
        insert_desc(x, s).len() == s.len() + 1,
    decreases s.len(),
{
    if s.len() > 0 && s.first().strength > x.strength {
        lemma_insert_desc_len(x, s.drop_first());
    }
}

proof fn lemma_insert_desc_contains(x: ApModel, s: Seq<ApModel>)
    ensures
        forall|y: ApModel| #[trigger] insert_desc(x, s).contains(y) <==> s.contains(y) || y == x,
    decreases s.len(),
{
    lemma_insert_desc_len(x, s);
    if s.len() > 0 && s.first().strength > x.strength {
        lemma_insert_desc_contains(x, s.drop_first());
        let t = insert_desc(x, s);
        let t1 = insert_desc(x, s.drop_first());
        assert forall|y: ApModel| #[trigger] t.contains(y) implies s.contains(y) || y == x by {
            let i = choose|i: int| 0 <= i < t.len() && t[i] == y;
            if i == 0 {
                assert(s[0] == y);
            } else {
                assert(t1[i - 1] == y);
                assert(t1.contains(y));
                if s.drop_first().contains(y) {
                    let k = choose|k: int| 0 <= k < s.drop_first().len() && s.drop_first()[k] == y;
                    assert(s[k + 1] == y);
                }
            }
        }
        assert forall|y: ApModel| s.contains(y) || y == x implies #[trigger] t.contains(y) by {
            if s.contains(y) {
                let i = choose|i: int| 0 <= i < s.len() && s[i] == y;
                if i == 0 {
                    assert(t[0] == y);
                } else {
                    assert(s.drop_first()[i - 1] == y);
                    assert(s.drop_first().contains(y));
                    assert(t1.contains(y));
                    let k = choose|k: int| 0 <= k < t1.len() && t1[k] == y;
                    assert(t[k + 1] == y);
                }
            } else {
                assert(t1.contains(x));
                let k = choose|k: int| 0 <= k < t1.len() && t1[k] == x;
                assert(t[k + 1] == x);
            }
        }
    } else if s.len() > 0 {
        let t = insert_desc(x, s);
        assert forall|y: ApModel| #[trigger] t.contains(y) implies s.contains(y) || y == x by {
            let i = choose|i: int| 0 <= i < t.len() && t[i] == y;
            if i > 0 {
                assert(s[i - 1] == y);
            }
        }
        assert forall|y: ApModel| s.contains(y) || y == x implies #[trigger] t.contains(y) by {
            if s.contains(y) {
                let i = choose|i: int| 0 <= i < s.len() && s[i] == y;
                assert(t[i + 1] == y);
            } else {
                assert(t[0] == x);
            }
        }
    } else {
        let t = insert_desc(x, s);
        assert(t[0] == x);
    }
}

proof fn lemma_insert_desc_sorted(x: ApModel, s: Seq<ApModel>)
    requires
        sorted_desc(s),
    ensures
        sorted_desc(insert_desc(x, s)),
    decreases s.len(),
{
    if s.len() > 0 && s.first().strength > x.strength {
        assert(sorted_desc(s.drop_first()));
        lemma_insert_desc_sorted(x, s.drop_first());
        lemma_insert_desc_len(x, s.drop_first());
        let t = insert_desc(x, s);
        let t1 = insert_desc(x, s.drop_first());
        lemma_insert_desc_contains(x, s.drop_first());
        assert forall|i: int, j: int| 0 <= i && i < j && j < t.len() implies t[i].strength
            >= t[j].strength by {
            if i == 0 {
                assert(t[j] == t1[j - 1]);
                assert(t1.contains(t1[j - 1]));
                if s.drop_first().contains(t1[j - 1]) {
                    let k = choose|k: int|
                        0 <= k < s.drop_first().len() && s.drop_first()[k] == t1[j - 1];
                    assert(s[k + 1] == t1[j - 1]);
                    assert(s[0].strength >= s[k + 1].strength);
                } else {
                    assert(t1[j - 1] == x);
                }
            } else {
                assert(t[i] == t1[i - 1]);
                assert(t[j] == t1[j - 1]);
            }
        }
    }
}

proof fn lemma_sort_desc_sorted(s: Seq<ApModel>)
    ensures
        sorted_desc(sort_desc(s)),
        sort_desc(s).len() == s.len(),
    decreases s.len(),
{
    if s.len() > 0 {
        lemma_sort_desc_sorted(s.drop_first());
        lemma_insert_desc_sorted(s.first(), sort_desc(s.drop_first()));
        lemma_insert_desc_len(s.first(), sort_desc(s.drop_first()));
    }
}

proof fn lemma_sort_desc_contains(s: Seq<ApModel>)
    ensures
        forall|y: ApModel| #[trigger] sort_desc(s).contains(y) <==> s.contains(y),
    decreases s.len(),
{
    if s.len() > 0 {
        lemma_sort_desc_contains(s.drop_first());
        lemma_insert_desc_contains(s.first(), sort_desc(s.drop_first()));
        let t = sort_desc(s);
        assert forall|y: ApModel| #[trigger] t.contains(y) implies s.contains(y) by {
            if s.drop_first().contains(y) {
                let k = choose|k: int| 0 <= k < s.drop_first().len() && s.drop_first()[k] == y;
                assert(s[k + 1] == y);
            } else {
                assert(s[0] == y);
            }
        }
        assert forall|y: ApModel| s.contains(y) implies #[trigger] t.contains(y) by {
            let i = choose|i: int| 0 <= i < s.len() && s[i] == y;
            if i > 0 {
                assert(s.drop_first()[i - 1] == y);
                assert(s.drop_first().contains(y));
            } else {
                assert(s.first() == y);
            }
        }
    }
}

proof fn lemma_dedup_first_has_ssid(s: Seq<ApModel>, ssid: Seq<char>)
    ensures
        has_ssid(dedup_first(s), ssid) == has_ssid(s, ssid),
    decreases s.len(),
{
    if s.len() > 0 {
        let p = s.drop_last();
        lemma_dedup_first_has_ssid(p, ssid);
        let d = dedup_first(s);
        if has_ssid(p, s.last().ssid) {
            // d == dedup_first(p)
            if has_ssid(s, ssid) {
                let i = choose|i: int| 0 <= i < s.len() && s[i].ssid == ssid;
                if i == s.len() - 1 {
                    let k = choose|k: int| 0 <= k < p.len() && p[k].ssid == s.last().ssid;
                    assert(p[k].ssid == ssid);
                    assert(has_ssid(p, ssid));
                } else {
                    assert(p[i].ssid == ssid);
                    assert(has_ssid(p, ssid));
                }
            }
            if has_ssid(p, ssid) {
                let i = choose|i: int| 0 <= i < p.len() && p[i].ssid == ssid;
                assert(s[i].ssid == ssid);
            }
        } else {
            // d == dedup_first(p).push(s.last())
            let dp = dedup_first(p);
            if has_ssid(s, ssid) {
                let i = choose|i: int| 0 <= i < s.len() && s[i].ssid == ssid;
                if i == s.len() - 1 {
                    assert(d[d.len() - 1].ssid == ssid);
                } else {
                    assert(p[i].ssid == ssid);
                    assert(has_ssid(p, ssid));
                    let k = choose|k: int| 0 <= k < dp.len() && dp[k].ssid == ssid;
                    assert(d[k].ssid == ssid);
                }
            }
            if has_ssid(d, ssid) {
                let k = choose|k: int| 0 <= k < d.len() && d[k].ssid == ssid;
                if k == d.len() - 1 {
                    assert(s.last().ssid == ssid);
                    assert(s[s.len() - 1].ssid == ssid);
                } else {
                    assert(dp[k].ssid == ssid);
                    assert(has_ssid(dp, ssid));
                    let i = choose|i: int| 0 <= i < p.len() && p[i].ssid == ssid;
                    assert(s[i].ssid == ssid);
                }
            }
        }
    }
}

proof fn lemma_dedup_first_contains(s: Seq<ApModel>)
    ensures
        forall|j: int|
            0 <= j < dedup_first(s).len() ==> s.contains(#[trigger] dedup_first(s)[j]),
    decreases s.len(),
{
    if s.len() > 0 {
        let p = s.drop_last();
        lemma_dedup_first_contains(p);
        let d = dedup_first(s);
        assert forall|j: int| 0 <= j < d.len() implies s.contains(#[trigger] d[j]) by {
            if !has_ssid(p, s.last().ssid) && j == d.len() - 1 {
                assert(s[s.len() - 1] == d[j]);
            } else {
                assert(d[j] == dedup_first(p)[j]);
                assert(p.contains(d[j]));
                let i = choose|i: int| 0 <= i < p.len() && p[i] == d[j];
                assert(s[i] == d[j]);
            }
        }
    }
}

proof fn lemma_dedup_first_unique(s: Seq<ApModel>)
    ensures
        unique_ssids(dedup_first(s)),
    decreases s.len(),
{
    if s.len() > 0 {
        let p = s.drop_last();
        lemma_dedup_first_unique(p);
        if !has_ssid(p, s.last().ssid) {
            let d = dedup_first(s);
            let dp = dedup_first(p);
            lemma_dedup_first_has_ssid(p, s.last().ssid);
            assert forall|i: int, j: int| 0 <= i && i < j && j < d.len() implies d[i].ssid
                != d[j].ssid by {
                if j == d.len() - 1 {
                    assert(d[i] == dp[i]);
                    if dp[i].ssid == s.last().ssid {
                        assert(has_ssid(dp, s.last().ssid));
                    }
                } else {
                    assert(d[i] == dp[i]);
                    assert(d[j] == dp[j]);
                }
            }
        }
    }
}

proof fn lemma_dedup_first_sorted(s: Seq<ApModel>)
    requires
        sorted_desc(s),
    ensures
        sorted_desc(dedup_first(s)),
    decreases s.len(),
{
    if s.len() > 0 {
        let p = s.drop_last();
        assert(sorted_desc(p));
        lemma_dedup_first_sorted(p);
        if !has_ssid(p, s.last().ssid) {
            let d = dedup_first(s);
            let dp = dedup_first(p);
            lemma_dedup_first_contains(p);
            assert forall|i: int, j: int| 0 <= i && i < j && j < d.len() implies d[i].strength
                >= d[j].strength by {
                if j == d.len() - 1 {
                    assert(d[i] == dp[i]);
                    assert(p.contains(dp[i]));
                    let k = choose|k: int| 0 <= k < p.len() && p[k] == dp[i];
                    assert(s[k].strength >= s[s.len() - 1].strength);
                } else {
                    assert(d[i] == dp[i]);
                    assert(d[j] == dp[j]);
                }
            }
        }
    }
}

proof fn lemma_dedup_first_covers(s: Seq<ApModel>)
    requires
        sorted_desc(s),
    ensures
        forall|k: int| 0 <= k < s.len() ==> covered(dedup_first(s), #[trigger] s[k]),
    decreases s.len(),
{
    if s.len() > 0 {
        let p = s.drop_last();
        assert(sorted_desc(p));
        lemma_dedup_first_covers(p);
        let d = dedup_first(s);
        let dp = dedup_first(p);
        assert forall|k: int| 0 <= k < s.len() implies covered(d, #[trigger] s[k]) by {
            if has_ssid(p, s.last().ssid) {
                // d == dp
                if k == s.len() - 1 {
                    let i = choose|i: int| 0 <= i < p.len() && p[i].ssid == s.last().ssid;
                    assert(covered(dp, p[i]));
                    let j = choose|j: int|
                        0 <= j < dp.len() && dp[j].ssid == p[i].ssid && dp[j].strength
                            >= p[i].strength;
                    assert(s[i].strength >= s[k].strength);
                    assert(dp[j].ssid == s[k].ssid && dp[j].strength >= s[k].strength);
                } else {
                    assert(covered(dp, p[k]));
                }
            } else {
                // d == dp.push(s.last())
                if k == s.len() - 1 {
                    assert(d[d.len() - 1] == s.last());
                } else {
                    assert(covered(dp, p[k]));
                    let j = choose|j: int|
                        0 <= j < dp.len() && dp[j].ssid == p[k].ssid && dp[j].strength
                            >= p[k].strength;
                    assert(d[j] == dp[j]);
                }
            }
        }
    }
}

proof fn lemma_sort_desc_of_sorted(s: Seq<ApModel>)
    requires
        sorted_desc(s),
    ensures
        sort_desc(s) == s,
    decreases s.len(),
{
    if s.len() > 0 {
        assert(sorted_desc(s.drop_first()));
        lemma_sort_desc_of_sorted(s.drop_first());
        let r = s.drop_first();
        if r.len() == 0 {
            assert(insert_desc(s.first(), r) =~= s);
        } else {
            assert(s[1].strength <= s[0].strength);
            assert(!(r.first().strength > s.first().strength));
            assert(insert_desc(s.first(), r) =~= s);
        }
    }
}

proof fn lemma_dedup_first_of_unique(s: Seq<ApModel>)
    requires
        unique_ssids(s),
    ensures
        dedup_first(s) == s,
    decreases s.len(),
{
    if s.len() > 0 {
        let p = s.drop_last();
        assert(unique_ssids(p));
        lemma_dedup_first_of_unique(p);
        if has_ssid(p, s.last().ssid) {
            let i = choose|i: int| 0 <= i < p.len() && p[i].ssid == s.last().ssid;
            assert(s[i].ssid == s[s.len() - 1].ssid);
            assert(false);
        }
        assert(dedup_first(s) =~= s);
    }
}

proof fn lemma_insert_desc_at(x: ApModel, s: Seq<ApModel>, j: int)
    requires
        0 <= j <= s.len(),
        forall|k: int| 0 <= k < j ==> s[k].strength > x.strength,
        j < s.len() ==> s[j].strength <= x.strength,
    ensures
        insert_desc(x, s) == s.insert(j, x),
    decreases s.len(),
{
    if j == 0 {
        assert(insert_desc(x, s) =~= s.insert(0, x));
    } else {
        assert(s.first().strength > x.strength);
        lemma_insert_desc_at(x, s.drop_first(), j - 1);
        assert(seq![s.first()] + s.drop_first().insert(j - 1, x) =~= s.insert(j, x));
    }
}

/// Inserts one entry into a run already ranked strongest-first, keeping it
/// after every strictly stronger entry.
fn insert_ranked(v: &mut Vec<AccessPoint>, x: AccessPoint)
    ensures
        models(final(v)@) == insert_desc(x@, models(old(v)@)),
{
    let mut j: usize = 0;
    while j < v.len() && v[j as usize].strength > x.strength
        invariant
            j <= v@.len(),
            v@ == old(v)@,
            forall|k: int| 0 <= k < j ==> models(v@)[k].strength > x@.strength,
        decreases v@.len() - j,
    {
        j += 1;
    }
    proof {
        lemma_insert_desc_at(x@, models(v@), j as int);
    }
    v.insert(j, x);
    proof {
        assert(models(v@) =~= models(old(v)@).insert(j as int, x@));
    }
}

/// Stable sort, strongest first.
fn sort_ranked(v: Vec<AccessPoint>) -> (out: Vec<AccessPoint>)
    ensures
        models(out@) == sort_desc(models(v@)),
{
    let ghost mv = models(v@);
    let mut rest = v;
    let mut acc: Vec<AccessPoint> = Vec::new();
    while rest.len() > 0
        invariant
            rest@.len() <= mv.len(),
            rest@ == v@.subrange(0, rest@.len() as int),
            mv == models(v@),
            models(acc@) == sort_desc(mv.subrange(rest@.len() as int, mv.len() as int)),
        decreases rest@.len(),
    {
        let ghost i = rest@.len() as int - 1;
        let x = rest.pop().unwrap();
        proof {
            assert(x@ == mv[i]);
            assert(mv.subrange(i, mv.len() as int).first() == mv[i]);
            assert(mv.subrange(i, mv.len() as int).drop_first() =~= mv.subrange(
                i + 1,
                mv.len() as int,
            ));
        }
        insert_ranked(&mut acc, x);
    }
    proof {
        assert(mv.subrange(0, mv.len() as int) =~= mv);
    }
    acc
}

/// Whether any entry in the list carries the given ssid.
fn contains_ssid(v: &Vec<AccessPoint>, ssid: &String) -> (r: bool)
    ensures
        r == has_ssid(models(v@), ssid@),
{
    let mut i: usize = 0;
    let mut found = false;
    while i < v.len()
        invariant
            i <= v@.len(),
            found == has_ssid(models(v@).subrange(0, i as int), ssid@),
        decreases v@.len() - i,
    {
        let ghost prefix = models(v@).subrange(0, i as int);
        let ghost next = models(v@).subrange(0, i as int + 1);
        if v[i].ssid == *ssid {
            found = true;
            proof {
                assert(next[i as int].ssid == ssid@);
            }
        } else {
            proof {
                if has_ssid(next, ssid@) {
                    let k = choose|k: int| 0 <= k < next.len() && next[k].ssid == ssid@;
                    assert(k < i ==> prefix[k].ssid == ssid@);
                }
            }
        }
        i += 1;
    }
    proof {
        assert(models(v@).subrange(0, v@.len() as int) =~= models(v@));
    }
    found
}

/// Keeps the first occurrence of each ssid, in order.
fn dedup_ranked(v: Vec<AccessPoint>) -> (out: Vec<AccessPoint>)
    ensures
        models(out@) == dedup_first(models(v@)),
{
    let ghost mv = models(v@);
    let mut rest = v;
    let mut out: Vec<AccessPoint> = Vec::new();
    while rest.len() > 0
        invariant
            rest@.len() <= mv.len(),
            mv == models(v@),
            rest@ == v@.subrange(mv.len() - rest@.len(), mv.len() as int),
            models(out@) == dedup_first(mv.subrange(0, mv.len() - rest@.len())),
        decreases rest@.len(),
    {
        let ghost i = mv.len() - rest@.len();
        let x = rest.remove(0);
        proof {
            assert(x@ == mv[i]);
            assert(rest@ =~= v@.subrange(i + 1, mv.len() as int));
            assert(mv.subrange(0, i + 1).drop_last() =~= mv.subrange(0, i));
            assert(mv.subrange(0, i + 1).last() == mv[i]);
            lemma_dedup_first_has_ssid(mv.subrange(0, i), x@.ssid);
        }
        let dup = contains_ssid(&out, &x.ssid);
        if !dup {
            out.push(x);
        }
    }
    proof {
        assert(mv.subrange(0, mv.len() as int) =~= mv);
    }
    out
}

/// Reverses the list.
fn reverse_list(v: Vec<AccessPoint>) -> (out: Vec<AccessPoint>)
    ensures
        models(out@) == models(v@).reverse(),
{
    let ghost mv = models(v@);
    let mut rest = v;
    let mut out: Vec<AccessPoint> = Vec::new();
    while rest.len() > 0
        invariant
            rest@.len() <= mv.len(),
            mv == models(v@),
            rest@ == v@.subrange(0, rest@.len() as int),
            models(out@) == mv.subrange(rest@.len() as int, mv.len() as int).reverse(),
        decreases rest@.len(),
    {
        let ghost i = rest@.len() as int - 1;
        let x = rest.pop().unwrap();
        let ghost out0 = models(out@);
        out.push(x);
        proof {
            assert(x@ == mv[i]);
            let tail0 = mv.subrange(i + 1, mv.len() as int);
            let tail1 = mv.subrange(i, mv.len() as int);
            assert(out0 == tail0.reverse());
            assert(tail0.reverse().len() == tail0.len());
            assert(models(out@) =~= out0.push(x@));
            assert(tail1.reverse().len() == tail1.len());
            assert forall|k: int| 0 <= k < tail1.len() implies out0.push(x@)[k]
                == tail1.reverse()[k] by {
                assert(tail1.reverse()[k] == tail1[tail1.len() - 1 - k]);
                if k < tail1.len() - 1 {
                    assert(out0.push(x@)[k] == tail0.reverse()[k]);
                    assert(tail0.reverse()[k] == tail0[tail0.len() - 1 - k]);
                } else {
                    assert(out0.push(x@)[k] == x@);
                }
            }
            assert(out0.push(x@) =~= tail1.reverse());
        }
    }
    proof {
        assert(mv.subrange(0, mv.len() as int) =~= mv);
    }
    out
}

/// Parses every descriptor, dropping the partial ones.
fn parse_all(descs: Vec<ApDescriptor>) -> (out: Vec<AccessPoint>)
    ensures
        models(out@) == parsed_of(descs@),
{
    let mut rest = descs;
    let mut out: Vec<AccessPoint> = Vec::new();
    while rest.len() > 0
        invariant
            rest@.len() <= descs@.len(),
            rest@ == descs@.subrange(descs@.len() - rest@.len(), descs@.len() as int),
            models(out@) == parsed_of(descs@.subrange(0, descs@.len() - rest@.len())),
        decreases rest@.len(),
    {
        let ghost i = descs@.len() - rest@.len();
        let d = rest.remove(0);
        proof {
            assert(d == descs@[i]);
            assert(rest@ =~= descs@.subrange(i + 1, descs@.len() as int));
            assert(descs@.subrange(0, i + 1).drop_last() =~= descs@.subrange(0, i));
            assert(descs@.subrange(0, i + 1).last() == descs@[i]);
        }
        match AccessPoint::new(d) {
            Some(ap) => out.push(ap),
            None => {},
        }
    }
    proof {
        assert(descs@.subrange(0, descs@.len() as int) =~= descs@);
    }
    out
}

impl AccessPoint {
    /// The full transform: parse the raw descriptors, drop partial ones,
    /// and hand back one entry per ssid — the strongest observed, earliest
    /// on a tie — ordered weakest-first for a prepending consumer.
    pub fn from_list(descs: Vec<ApDescriptor>) -> (out: Vec<AccessPoint>)
        ensures
            models(out@) == dedup_rank(parsed_of(descs@)),
    {
        let parsed = parse_all(descs);
        let sorted = sort_ranked(parsed);
        let deduped = dedup_ranked(sorted);
        reverse_list(deduped)
    }
}

/// Law: the transform never yields two entries with the same ssid.
pub proof fn lemma_dedup_rank_unique_ssids(s: Seq<ApModel>)
    ensures
        unique_ssids(dedup_rank(s)),
{
    lemma_dedup_first_unique(sort_desc(s));
    let d = dedup_first(sort_desc(s));
    let r = dedup_rank(s);
    assert forall|i: int, j: int| 0 <= i && i < j && j < r.len() implies r[i].ssid
        != r[j].ssid by {
        assert(r[i] == d[d.len() - 1 - i]);
        assert(r[j] == d[d.len() - 1 - j]);
    }
}

/// Law: every input entry is represented: the retained entry with its ssid
/// is at least as strong as it.
pub proof fn lemma_dedup_rank_strongest(s: Seq<ApModel>)
    ensures
        forall|k: int| 0 <= k < s.len() ==> covered(dedup_rank(s), #[trigger] s[k]),
{
    lemma_sort_desc_sorted(s);
    lemma_sort_desc_contains(s);
    lemma_dedup_first_covers(sort_desc(s));
    let t = sort_desc(s);
    let d = dedup_first(t);
    let r = dedup_rank(s);
    assert forall|k: int| 0 <= k < s.len() implies covered(r, #[trigger] s[k]) by {
        assert(s.contains(s[k]));
        assert(t.contains(s[k]));
        let i = choose|i: int| 0 <= i < t.len() && t[i] == s[k];
        assert(covered(d, t[i]));
        let j = choose|j: int|
            0 <= j < d.len() && d[j].ssid == t[i].ssid && d[j].strength >= t[i].strength;
        assert(r[r.len() - 1 - j] == d[j]);
    }
}

/// Law: the transform is idempotent: running it again on the output's
/// strongest-first materialization gives the output back unchanged.
pub proof fn lemma_dedup_rank_idempotent(s: Seq<ApModel>)
    ensures
        dedup_rank(dedup_rank(s).reverse()) == dedup_rank(s),
{
    let t = dedup_first(sort_desc(s));
    assert(dedup_rank(s).reverse() =~= t);
    lemma_sort_desc_sorted(s);
    lemma_dedup_first_sorted(sort_desc(s));
    lemma_dedup_first_unique(sort_desc(s));
    lemma_sort_desc_of_sorted(t);
    lemma_dedup_first_of_unique(t);
}

} // verus!

