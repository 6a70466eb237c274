//! The engine's laws: how large the retained set is, that the newest
//! artifact survives, that unparseable names never survive, and that the
//! selection is a pure function of its inputs.

use vstd::prelude::*;
use vstd::arithmetic::div_mod::{
    lemma_div_is_ordered, lemma_div_minus_one, lemma_div_multiples_vanish_fancy,
    lemma_div_pos_is_pos,
};
use vstd::seq_lib::seq_to_set_is_finite;
use crate::engine::{
    ceil_div, names_of, pass_select, sort_desc, sorted_desc, spec_backups_to_delete,
    spec_backup_epoch, spec_deletions, spec_in_period, spec_prune_pool, spec_retained_loop,
    spec_retained_names, spec_survivors, insert_desc, PoolEntry,
};

verus! {

/// No two entries of `s` carry the same name.
pub open spec fn distinct_names(s: Seq<PoolEntry>) -> bool {
    forall|i: int, j: int| 0 <= i < j < s.len() ==> s[i].0 != s[j].0
}

/// The name set of a pool is finite, and holds exactly the entries' names.
proof fn lemma_names_of_facts(s: Seq<PoolEntry>)
    ensures
        names_of(s).finite(),
        forall|n: Seq<char>| #[trigger]
            names_of(s).contains(n) <==> exists|i: int| 0 <= i < s.len() && s[i].0 == n,
{
    broadcast use seq_to_set_is_finite;

    let m = s.map_values(|p: PoolEntry| p.0);
    assert forall|n: Seq<char>| #[trigger] names_of(s).contains(n) implies exists|i: int|
        0 <= i < s.len() && s[i].0 == n by {
        let i = choose|i: int| 0 <= i < m.len() && m[i] == n;
        assert(s[i].0 == n);
    }
    assert forall|n: Seq<char>|
        (exists|i: int| 0 <= i < s.len() && s[i].0 == n) implies #[trigger] names_of(
        s,
    ).contains(n) by {
        let i = choose|i: int| 0 <= i < s.len() && s[i].0 == n;
        assert(m[i] == n);
        assert(m.contains(n));
    }
}

/// The entry a distribution pass selects at position `k` stands in the
/// pool at or past the scan index.
proof fn lemma_pass_select_entry(s: Seq<PoolEntry>, i: int, last: int, interval: int, k: int)
    requires
        0 <= i,
        0 <= k < pass_select(s, i, last, interval).len(),
    ensures
        exists|j: int| i <= j < s.len() && #[trigger] s[j] == pass_select(s, i, last, interval)[k],
    decreases s.len() - i,
{
    if i >= s.len() {
    } else if i == 0 || i - last >= interval {
        if k == 0 {
            assert(s[i] == pass_select(s, i, last, interval)[0]);
        } else {
            lemma_pass_select_entry(s, i + 1, i, interval, k - 1);
            let j = choose|j: int|
                i + 1 <= j < s.len() && s[j] == pass_select(s, i + 1, i, interval)[k - 1];
            assert(pass_select(s, i, last, interval)[k] == pass_select(s, i + 1, i, interval)[k
                - 1]);
            assert(s[j] == pass_select(s, i, last, interval)[k]);
        }
    } else {
        lemma_pass_select_entry(s, i + 1, last, interval, k);
        let j = choose|j: int|
            i + 1 <= j < s.len() && s[j] == pass_select(s, i + 1, last, interval)[k];
        assert(s[j] == pass_select(s, i, last, interval)[k]);
    }
}

/// When the pool's names are distinct, so are the names a pass selects.
proof fn lemma_pass_select_distinct(s: Seq<PoolEntry>, i: int, last: int, interval: int)
    requires
        0 <= i,
        distinct_names(s),
    ensures
        distinct_names(pass_select(s, i, last, interval)),
    decreases s.len() - i,
{
    let sel = pass_select(s, i, last, interval);
    if i >= s.len() {
    } else if i == 0 || i - last >= interval {
        lemma_pass_select_distinct(s, i + 1, i, interval);
        let rest = pass_select(s, i + 1, i, interval);
        assert forall|a: int, b: int| 0 <= a < b < sel.len() implies sel[a].0 != sel[b].0 by {
            if a == 0 {
                lemma_pass_select_entry(s, i + 1, i, interval, b - 1);
                let j = choose|j: int| i + 1 <= j < s.len() && s[j] == rest[b - 1];
                assert(sel[b] == rest[b - 1]);
                assert(sel[0] == s[i]);
                assert(s[i].0 != s[j].0);
            } else {
                assert(sel[a] == rest[a - 1]);
                assert(sel[b] == rest[b - 1]);
                assert(distinct_names(rest));
            }
        }
    } else {
        lemma_pass_select_distinct(s, i + 1, last, interval);
    }
}

/// From scan index `i >= 1` on, a pass selects at most
/// `(len - 1 - last) / interval` further entries.
proof fn lemma_pass_select_tail_bound(s: Seq<PoolEntry>, i: int, last: int, interval: int)
    requires
        1 <= i,
        0 <= last < s.len(),
        interval >= 1,
    ensures
        pass_select(s, i, last, interval).len() <= (s.len() - 1 - last) / interval,
    decreases s.len() - i,
{
    let len = s.len() as int;
    if i >= s.len() {
        lemma_div_pos_is_pos(len - 1 - last, interval);
    } else if i - last >= interval {
        lemma_pass_select_tail_bound(s, i + 1, i, interval);
        assert(len - 1 - i <= len - 1 - last - interval);
        lemma_div_is_ordered(len - 1 - i, len - 1 - last - interval, interval);
        lemma_div_minus_one(len - 1 - last, interval);
        assert((len - 1 - last - interval) / interval == (len - 1 - last) / interval - 1);
        assert(pass_select(s, i, last, interval).len() == 1 + pass_select(
            s,
            i + 1,
            i,
            interval,
        ).len());
    } else {
        lemma_pass_select_tail_bound(s, i + 1, last, interval);
    }
}

/// A full distribution pass over a pool of `len` entries with
/// `interval == ceil(len / slots)` selects at most `slots` entries.
proof fn lemma_pass_select_bound(s: Seq<PoolEntry>, slots: int)
    requires
        slots >= 1,
    ensures
        pass_select(s, 0, 0, ceil_div(s.len() as int, slots)).len() <= slots,
{
    let len = s.len() as int;
    let interval = ceil_div(len, slots);
    if len == 0 {
    } else {
        // slots * interval >= len, so (len - 1) / interval <= slots - 1
        let q = (len + slots - 1) / slots;
        let r = (len + slots - 1) % slots;
        vstd::arithmetic::div_mod::lemma_fundamental_div_mod(len + slots - 1, slots);
        assert(len + slots - 1 == slots * q + r);
        assert(interval == q);
        assert(slots * interval >= len);
        assert(interval >= 1) by {
            lemma_div_pos_is_pos(len + slots - 1, slots);
            if interval == 0 {
                assert(slots * 0 == 0) by (nonlinear_arith);
                assert(len <= 0);
            }
        }
        assert(len - 1 <= slots * interval - 1);
        assert(slots * interval - 1 == interval * (slots - 1) + (interval - 1))
            by (nonlinear_arith);
        lemma_div_is_ordered(len - 1, interval * (slots - 1) + (interval - 1), interval);
        lemma_div_multiples_vanish_fancy(slots - 1, interval - 1, interval);
        assert((interval * (slots - 1) + (interval - 1)) / interval == slots - 1);
        assert((len - 1) / interval <= slots - 1);
        if s.len() > 0 {
            assert(pass_select(s, 0, 0, interval).len() == 1 + pass_select(
                s,
                1,
                0,
                interval,
            ).len());
            lemma_pass_select_tail_bound(s, 1, 0, interval);
        }
    }
}

/// Pruning keeps exactly the entries whose names are not retained; with
/// distinct names it removes one entry per retained name present.
proof fn lemma_prune_count(s: Seq<PoolEntry>, r: Set<Seq<char>>)
    requires
        distinct_names(s),
        r.finite(),
    ensures
        spec_prune_pool(s, r).len() == s.len() - names_of(s).intersect(r).len(),
        distinct_names(spec_prune_pool(s, r)),
        names_of(spec_prune_pool(s, r)) =~= names_of(s).difference(r),
    decreases s.len(),
{
    lemma_names_of_facts(s);
    lemma_names_of_facts(spec_prune_pool(s, r));
    if s.len() == 0 {
        assert(names_of(s).intersect(r) =~= Set::<Seq<char>>::empty());
    } else {
        let t = s.drop_last();
        let x = s.last();
        assert(distinct_names(t));
        lemma_prune_count(t, r);
        lemma_names_of_facts(t);
        assert(names_of(s) =~= names_of(t).insert(x.0)) by {
            assert(s[s.len() - 1].0 == x.0);
            assert(forall|i: int| 0 <= i < t.len() ==> t[i] == s[i]);
        }
        assert(!names_of(t).contains(x.0)) by {
            if names_of(t).contains(x.0) {
                let i = choose|i: int| 0 <= i < t.len() && t[i].0 == x.0;
                assert(s[i].0 == s[s.len() - 1].0);
            }
        }
        let prt = spec_prune_pool(t, r);
        lemma_names_of_facts(prt);
        if r.contains(x.0) {
            assert(spec_prune_pool(s, r) == prt);
            assert(names_of(s).intersect(r) =~= names_of(t).intersect(r).insert(x.0));
            assert(!names_of(t).intersect(r).contains(x.0));
            assert(names_of(t).intersect(r).finite()) by {
                assert(names_of(t).intersect(r).subset_of(names_of(t)));
                vstd::set_lib::lemma_len_subset(names_of(t).intersect(r), names_of(t));
            }
            assert(names_of(prt) =~= names_of(s).difference(r));
        } else {
            let pr = spec_prune_pool(s, r);
            assert(pr == prt.push(x));
            assert(names_of(s).intersect(r) =~= names_of(t).intersect(r));
            assert(names_of(pr) =~= names_of(prt).insert(x.0)) by {
                lemma_names_of_facts(pr);
                assert(forall|i: int| 0 <= i < prt.len() ==> pr[i] == prt[i]);
                assert(pr[pr.len() - 1] == x);
            }
            assert(names_of(pr) =~= names_of(s).difference(r));
            assert(distinct_names(pr)) by {
                assert(forall|i: int| 0 <= i < prt.len() ==> pr[i] == prt[i]);
                assert(pr[pr.len() - 1] == x);
                assert forall|i: int, j: int| 0 <= i < j < pr.len() implies pr[i].0 != pr[j].0 by {
                    if j == pr.len() - 1 {
                        assert(!names_of(prt).contains(x.0)) by {
                            assert(names_of(prt) =~= names_of(t).difference(r));
                            assert(!names_of(t).contains(x.0));
                        }
                        if pr[i].0 == x.0 {
                            assert(names_of(prt).contains(prt[i].0));
                        }
                    }
                }
            }
        }
    }
}

/// Pruning never introduces names.
proof fn lemma_prune_names_sub(s: Seq<PoolEntry>, r: Set<Seq<char>>)
    ensures
        forall|n: Seq<char>| #[trigger]
            names_of(spec_prune_pool(s, r)).contains(n) ==> names_of(s).contains(n),
    decreases s.len(),
{
    lemma_names_of_facts(s);
    lemma_names_of_facts(spec_prune_pool(s, r));
    if s.len() > 0 {
        let t = s.drop_last();
        lemma_prune_names_sub(t, r);
        lemma_names_of_facts(t);
        let pr = spec_prune_pool(s, r);
        let prt = spec_prune_pool(t, r);
        lemma_names_of_facts(prt);
        assert forall|n: Seq<char>| #[trigger] names_of(pr).contains(n) implies names_of(
            s,
        ).contains(n) by {
            let i = choose|i: int| 0 <= i < pr.len() && pr[i].0 == n;
            if r.contains(s.last().0) {
                assert(pr[i] == prt[i]);
                assert(names_of(prt).contains(n));
                assert(names_of(t).contains(n));
                let j = choose|j: int| 0 <= j < t.len() && t[j].0 == n;
                assert(s[j].0 == n);
            } else {
                if i < prt.len() {
                    assert(pr[i] == prt[i]);
                    assert(names_of(prt).contains(n));
                    assert(names_of(t).contains(n));
                    let j = choose|j: int| 0 <= j < t.len() && t[j].0 == n;
                    assert(s[j].0 == n);
                } else {
                    assert(pr[i] == s.last());
                    assert(s[s.len() - 1].0 == n);
                }
            }
        }
    }
}


/// The size of a disjoint union is the sum of the sizes.
proof fn lemma_len_disjoint_union(a: Set<Seq<char>>, b: Set<Seq<char>>)
    requires
        a.finite(),
        b.finite(),
        a.disjoint(b),
    ensures
        (a + b).finite(),
        (a + b).len() == a.len() + b.len(),
    decreases b.len(),
{
    if b.len() == 0 {
        b.lemma_len0_is_empty();
        assert(a + b =~= a);
    } else {
        let x = b.choose();
        assert(b.contains(x)) by {
            if b =~= Set::<Seq<char>>::empty() {
                assert(b.len() == 0);
            }
        }
        let b2 = b.remove(x);
        lemma_len_disjoint_union(a, b2);
        assert(a + b =~= (a + b2).insert(x));
        assert(!(a + b2).contains(x));
    }
}

/// The selected names of a pass with distinct pool names number exactly
/// the selected entries, and all come from the pool.
proof fn lemma_pass_select_names(s: Seq<PoolEntry>, interval: int)
    requires
        distinct_names(s),
    ensures
        names_of(pass_select(s, 0, 0, interval)).finite(),
        names_of(pass_select(s, 0, 0, interval)).len() == pass_select(s, 0, 0, interval).len(),
        forall|n: Seq<char>| #[trigger]
            names_of(pass_select(s, 0, 0, interval)).contains(n) ==> names_of(s).contains(n),
{
    let sel = pass_select(s, 0, 0, interval);
    lemma_pass_select_distinct(s, 0, 0, interval);
    lemma_names_of_facts(sel);
    lemma_names_of_facts(s);
    let m = sel.map_values(|p: PoolEntry| p.0);
    assert(m.no_duplicates()) by {
        assert(forall|i: int| 0 <= i < sel.len() ==> m[i] == sel[i].0);
    }
    m.unique_seq_to_set();
    assert forall|n: Seq<char>| #[trigger] names_of(sel).contains(n) implies names_of(
        s,
    ).contains(n) by {
        let k = choose|k: int| 0 <= k < sel.len() && sel[k].0 == n;
        lemma_pass_select_entry(s, 0, 0, interval, k);
        let j = choose|j: int| 0 <= j < s.len() && s[j] == sel[k];
        assert(s[j].0 == n);
    }
}

/// Starting from a retained set below `count` with a pool of distinct
/// names disjoint from it, the loop retains exactly `count` names, or
/// every name it can reach when the pool is too small.
pub proof fn lemma_retained_loop_size(pool: Seq<PoolEntry>, retained: Set<Seq<char>>, count: int)
    requires
        distinct_names(pool),
        retained.finite(),
        names_of(pool).disjoint(retained),
        retained.len() <= count,
    ensures
        spec_retained_loop(pool, retained, count).finite(),
        spec_retained_loop(pool, retained, count).len() == vstd::math::min(
            count,
            retained.len() + pool.len() as int,
        ),
    decreases pool.len(),
{
    lemma_names_of_facts(pool);
    if retained.len() >= count {
    } else {
        let slots = count - retained.len();
        let interval = ceil_div(pool.len() as int, slots);
        let sel = pass_select(pool, 0, 0, interval);
        let nsel = names_of(sel);
        let retained2 = retained + nsel;
        let pool2 = spec_prune_pool(pool, retained2);
        lemma_pass_select_bound(pool, slots);
        lemma_pass_select_names(pool, interval);
        lemma_names_of_facts(sel);
        assert(nsel.disjoint(retained)) by {
            assert forall|n: Seq<char>| nsel.contains(n) implies !retained.contains(n) by {
                assert(names_of(pool).contains(n));
            }
        }
        lemma_len_disjoint_union(retained, nsel);
        assert(nsel.disjoint(retained) ==> retained.disjoint(nsel));
        assert(retained2.len() == retained.len() + nsel.len()) by {
            assert(retained + nsel =~= retained + nsel);
        }
        assert(retained2.len() <= count);
        lemma_prune_count(pool, retained2);
        assert(names_of(pool).intersect(retained2) =~= nsel) by {
            assert forall|n: Seq<char>|
                names_of(pool).intersect(retained2).contains(n) implies nsel.contains(n) by {
                assert(!retained.contains(n));
            }
        }
        assert(pool2.len() == pool.len() - nsel.len());
        if pool2.len() == 0 {
            assert(nsel.len() == pool.len());
            assert(spec_retained_loop(pool, retained, count) == retained2);
        } else {
            assert(pool.len() > 0) by {
                if pool.len() == 0 {
                    crate::engine::lemma_prune_pool_len(pool, retained2);
                }
            }
            assert(sel.len() >= 1);
            assert(names_of(pool2).disjoint(retained2)) by {
                assert forall|n: Seq<char>|
                    names_of(pool2).contains(n) implies !retained2.contains(n) by {
                    assert(names_of(pool).difference(retained2).contains(n));
                }
            }
            lemma_retained_loop_size(pool2, retained2, count);
            assert(spec_retained_loop(pool, retained, count) == spec_retained_loop(
                pool2,
                retained2,
                count,
            ));
        }
    }
}

/// Whatever is retained going into the loop is still retained by it.
pub proof fn lemma_retained_loop_mono(pool: Seq<PoolEntry>, retained: Set<Seq<char>>, count: int)
    ensures
        forall|n: Seq<char>| #[trigger]
            retained.contains(n) ==> spec_retained_loop(pool, retained, count).contains(n),
    decreases pool.len(),
{
    if retained.len() >= count {
    } else {
        let slots = count - retained.len();
        let interval = ceil_div(pool.len() as int, slots);
        let sel = pass_select(pool, 0, 0, interval);
        let retained2 = retained + names_of(sel);
        let pool2 = spec_prune_pool(pool, retained2);
        if pool2.len() == 0 {
        } else {
            assert(pool.len() > 0) by {
                crate::engine::lemma_prune_pool_len(pool, retained2);
            }
            assert(sel[0] == pool[0]);
            assert(sel.map_values(|p: PoolEntry| p.0)[0] == pool[0].0);
            assert(names_of(sel).contains(pool[0].0));
            crate::engine::lemma_prune_pool_drops(pool, retained2, 0);
            lemma_retained_loop_mono(pool2, retained2, count);
            assert forall|n: Seq<char>| #[trigger] retained.contains(n) implies spec_retained_loop(
                pool,
                retained,
                count,
            ).contains(n) by {
                assert(retained2.contains(n));
            }
        }
    }
}

/// The loop only ever retains what it started with or a name from the
/// pool.
pub proof fn lemma_retained_loop_sub(pool: Seq<PoolEntry>, retained: Set<Seq<char>>, count: int)
    ensures
        forall|n: Seq<char>| #[trigger]
            spec_retained_loop(pool, retained, count).contains(n) ==> retained.contains(n)
                || names_of(pool).contains(n),
    decreases pool.len(),
{
    lemma_names_of_facts(pool);
    if retained.len() >= count {
    } else {
        let slots = count - retained.len();
        let interval = ceil_div(pool.len() as int, slots);
        let sel = pass_select(pool, 0, 0, interval);
        let nsel = names_of(sel);
        let retained2 = retained + nsel;
        let pool2 = spec_prune_pool(pool, retained2);
        lemma_names_of_facts(sel);
        assert forall|n: Seq<char>| #[trigger] nsel.contains(n) implies names_of(pool).contains(
            n,
        ) by {
            let k = choose|k: int| 0 <= k < sel.len() && sel[k].0 == n;
            lemma_pass_select_entry(pool, 0, 0, interval, k);
            let j = choose|j: int| 0 <= j < pool.len() && pool[j] == sel[k];
            assert(pool[j].0 == n);
        }
        if pool2.len() == 0 {
        } else {
            assert(pool.len() > 0) by {
                crate::engine::lemma_prune_pool_len(pool, retained2);
            }
            assert(sel[0] == pool[0]);
            assert(sel.map_values(|p: PoolEntry| p.0)[0] == pool[0].0);
            assert(nsel.contains(pool[0].0));
            crate::engine::lemma_prune_pool_drops(pool, retained2, 0);
            lemma_retained_loop_sub(pool2, retained2, count);
            lemma_prune_names_sub(pool, retained2);
            assert forall|n: Seq<char>| #[trigger] spec_retained_loop(
                pool,
                retained,
                count,
            ).contains(n) implies retained.contains(n) || names_of(pool).contains(n) by {
                assert(spec_retained_loop(pool2, retained2, count).contains(n));
            }
        }
    }
}


/// Where `insert_desc` puts its element: after the longest prefix of
/// entries at least as new.
spec fn insert_pos(x: PoolEntry, t: Seq<PoolEntry>) -> int
    decreases t.len(),
{
    if t.len() == 0 {
        0
    } else if t[0].1 >= x.1 {
        1 + insert_pos(x, t.drop_first())
    } else {
        0
    }
}

proof fn lemma_insert_pos(x: PoolEntry, t: Seq<PoolEntry>)
    ensures
        0 <= insert_pos(x, t) <= t.len(),
        forall|j: int| 0 <= j < insert_pos(x, t) ==> t[j].1 >= x.1,
        insert_pos(x, t) < t.len() ==> t[insert_pos(x, t)].1 < x.1,
        insert_desc(x, t) =~~= t.take(insert_pos(x, t)) + seq![x] + t.skip(insert_pos(x, t)),
    decreases t.len(),
{
    let pos = insert_pos(x, t);
    if t.len() == 0 {
    } else if t[0].1 >= x.1 {
        let u = t.drop_first();
        lemma_insert_pos(x, u);
        assert(u.take(pos - 1) =~= t.take(pos).drop_first());
        assert(u.skip(pos - 1) =~= t.skip(pos));
        assert(forall|j: int| 1 <= j < pos ==> t[j].1 == u[j - 1].1);
    } else {
        assert(t.take(0) =~= Seq::<PoolEntry>::empty());
        assert(t.skip(0) =~= t);
    }
}

/// What sorting does: same length, same entries, same names, newest
/// first, and distinct names stay distinct.
proof fn lemma_sort_desc_props(s: Seq<PoolEntry>)
    ensures
        sort_desc(s).len() == s.len(),
        sorted_desc(sort_desc(s)),
        forall|e: PoolEntry| #[trigger] sort_desc(s).contains(e) <==> s.contains(e),
        names_of(sort_desc(s)) =~= names_of(s),
        distinct_names(s) ==> distinct_names(sort_desc(s)),
    decreases s.len(),
{
    lemma_names_of_facts(s);
    lemma_names_of_facts(sort_desc(s));
    if s.len() == 0 {
        assert forall|e: PoolEntry| #[trigger] sort_desc(s).contains(e) <==> s.contains(e) by {}
        assert(names_of(sort_desc(s)) =~= names_of(s));
    } else {
        let t = s.drop_last();
        let x = s.last();
        let st = sort_desc(t);
        lemma_sort_desc_props(t);
        lemma_names_of_facts(t);
        lemma_names_of_facts(st);
        lemma_insert_pos(x, st);
        let pos = insert_pos(x, st);
        let res = insert_desc(x, st);
        assert(sort_desc(s) == res);
        assert(res.len() == st.len() + 1);
        // sortedness
        assert(sorted_desc(res)) by {
            assert forall|a: int, b: int| 0 <= a <= b < res.len() implies res[a].1 >= res[b].1 by {
                let ra = if a < pos {
                    st[a]
                } else if a == pos {
                    x
                } else {
                    st[a - 1]
                };
                let rb = if b < pos {
                    st[b]
                } else if b == pos {
                    x
                } else {
                    st[b - 1]
                };
                assert(res[a] == ra);
                assert(res[b] == rb);
                if a < pos && b == pos {
                    assert(st[a].1 >= x.1);
                } else if a == pos && b > pos {
                    if pos < st.len() {
                        assert(st[pos].1 < x.1);
                        assert(st[pos].1 >= st[b - 1].1);
                    }
                } else if a < pos && b > pos {
                    assert(st[a].1 >= st[b - 1].1);
                } else if a == pos && b == pos {
                }
            }
        }
        // membership
        assert forall|e: PoolEntry| #[trigger] sort_desc(s).contains(e) implies s.contains(e) by {
            let i = choose|i: int| 0 <= i < res.len() && res[i] == e;
            if i == pos {
                assert(s[s.len() - 1] == e);
            } else if i < pos {
                assert(st[i] == e);
                assert(st.contains(e));
                assert(t.contains(e));
                let j = choose|j: int| 0 <= j < t.len() && t[j] == e;
                assert(s[j] == e);
            } else {
                assert(st[i - 1] == e);
                assert(st.contains(e));
                assert(t.contains(e));
                let j = choose|j: int| 0 <= j < t.len() && t[j] == e;
                assert(s[j] == e);
            }
        }
        assert forall|e: PoolEntry| s.contains(e) implies #[trigger] sort_desc(s).contains(e) by {
            let i = choose|i: int| 0 <= i < s.len() && s[i] == e;
            if i == s.len() - 1 {
                assert(res[pos] == e);
            } else {
                assert(t[i] == e);
                assert(t.contains(e));
                assert(st.contains(e));
                let j = choose|j: int| 0 <= j < st.len() && st[j] == e;
                if j < pos {
                    assert(res[j] == e);
                } else {
                    assert(res[j + 1] == e);
                }
            }
        }
        // names
        assert(names_of(res) =~= names_of(s)) by {
            lemma_names_of_facts(res);
            assert forall|n: Seq<char>|
                names_of(res).contains(n) implies names_of(s).contains(n) by {
                let i = choose|i: int| 0 <= i < res.len() && res[i].0 == n;
                if i == pos {
                    assert(s[s.len() - 1].0 == n);
                } else if i < pos {
                    assert(st[i].0 == n);
                    assert(names_of(st).contains(n));
                    assert(names_of(t).contains(n));
                    let j = choose|j: int| 0 <= j < t.len() && t[j].0 == n;
                    assert(s[j].0 == n);
                } else {
                    assert(st[i - 1].0 == n);
                    assert(names_of(st).contains(n));
                    assert(names_of(t).contains(n));
                    let j = choose|j: int| 0 <= j < t.len() && t[j].0 == n;
                    assert(s[j].0 == n);
                }
            }
            assert forall|n: Seq<char>|
                names_of(s).contains(n) implies names_of(res).contains(n) by {
                let i = choose|i: int| 0 <= i < s.len() && s[i].0 == n;
                if i == s.len() - 1 {
                    assert(res[pos].0 == n);
                } else {
                    assert(t[i].0 == n);
                    assert(names_of(t).contains(n));
                    assert(names_of(st).contains(n));
                    let j = choose|j: int| 0 <= j < st.len() && st[j].0 == n;
                    if j < pos {
                        assert(res[j].0 == n);
                    } else {
                        assert(res[j + 1].0 == n);
                    }
                }
            }
        }
        // distinctness
        if distinct_names(s) {
            assert(distinct_names(t)) by {
                assert(forall|i: int| 0 <= i < t.len() ==> t[i] == s[i]);
            }
            assert(!names_of(st).contains(x.0)) by {
                if names_of(st).contains(x.0) {
                    assert(names_of(t).contains(x.0));
                    let j = choose|j: int| 0 <= j < t.len() && t[j].0 == x.0;
                    assert(s[j].0 == s[s.len() - 1].0);
                }
            }
            assert forall|a: int, b: int| 0 <= a < b < res.len() implies res[a].0 != res[b].0 by {
                let ra = if a < pos {
                    st[a]
                } else if a == pos {
                    x
                } else {
                    st[a - 1]
                };
                let rb = if b < pos {
                    st[b]
                } else if b == pos {
                    x
                } else {
                    st[b - 1]
                };
                assert(res[a] == ra);
                assert(res[b] == rb);
                if a == pos {
                    assert(st[b - 1].0 != x.0) by {
                        assert(names_of(st).contains(st[b - 1].0));
                    }
                } else if b == pos {
                    assert(st[a].0 != x.0) by {
                        assert(names_of(st).contains(st[a].0));
                    }
                } else {
                    assert(distinct_names(st));
                }
            }
        }
    }
}

/// Each survivor entry is an input name inside the retention window,
/// carrying its own embedded date.
proof fn lemma_survivors_entry(names: Seq<Seq<char>>, period_days: int, now: int, k: int)
    requires
        0 <= k < spec_survivors(names, period_days, now).len(),
    ensures
        exists|j: int|
            0 <= j < names.len() && spec_in_period(#[trigger] names[j], period_days, now)
                && spec_survivors(names, period_days, now)[k] == (
            names[j],
            spec_backup_epoch(names[j]).unwrap(),
            ),
    decreases names.len(),
{
    let sv = spec_survivors(names, period_days, now);
    let t = names.drop_last();
    let svt = spec_survivors(t, period_days, now);
    if spec_in_period(names.last(), period_days, now) && k == sv.len() - 1 {
        assert(names[names.len() - 1] == names.last());
        assert(sv[k] == (names[names.len() - 1], spec_backup_epoch(
            names[names.len() - 1],
        ).unwrap()));
    } else {
        lemma_survivors_entry(t, period_days, now, k);
        let j = choose|j: int|
            0 <= j < t.len() && spec_in_period(t[j], period_days, now) && svt[k] == (
            t[j],
            spec_backup_epoch(t[j]).unwrap(),
            );
        assert(names[j] == t[j]);
        assert(sv[k] == svt[k]);
    }
}

/// An input name inside the retention window stands in the survivor pool.
proof fn lemma_survivors_contains(names: Seq<Seq<char>>, period_days: int, now: int, j: int)
    requires
        0 <= j < names.len(),
        spec_in_period(names[j], period_days, now),
    ensures
        spec_survivors(names, period_days, now).contains(
            (names[j], spec_backup_epoch(names[j]).unwrap()),
        ),
    decreases names.len(),
{
    let sv = spec_survivors(names, period_days, now);
    let t = names.drop_last();
    if j == names.len() - 1 {
        assert(sv[sv.len() - 1] == (names[j], spec_backup_epoch(names[j]).unwrap()));
    } else {
        lemma_survivors_contains(t, period_days, now, j);
        let svt = spec_survivors(t, period_days, now);
        let k = choose|k: int|
            0 <= k < svt.len() && svt[k] == (t[j], spec_backup_epoch(t[j]).unwrap());
        assert(sv[k] == svt[k]);
        assert(sv[k] == (names[j], spec_backup_epoch(names[j]).unwrap()));
    }
}

/// Distinct input names give a survivor pool with distinct names.
proof fn lemma_survivors_distinct(names: Seq<Seq<char>>, period_days: int, now: int)
    requires
        names.no_duplicates(),
    ensures
        distinct_names(spec_survivors(names, period_days, now)),
    decreases names.len(),
{
    let sv = spec_survivors(names, period_days, now);
    if names.len() > 0 {
        let t = names.drop_last();
        let svt = spec_survivors(t, period_days, now);
        assert(t.no_duplicates());
        lemma_survivors_distinct(t, period_days, now);
        if spec_in_period(names.last(), period_days, now) {
            assert forall|a: int, b: int| 0 <= a < b < sv.len() implies sv[a].0 != sv[b].0 by {
                if b == sv.len() - 1 {
                    assert(sv[a] == svt[a]);
                    lemma_survivors_entry(t, period_days, now, a);
                    let j = choose|j: int|
                        0 <= j < t.len() && spec_in_period(t[j], period_days, now) && svt[a] == (
                        t[j],
                        spec_backup_epoch(t[j]).unwrap(),
                        );
                    assert(sv[a].0 == names[j]);
                    assert(sv[b].0 == names[names.len() - 1]);
                } else {
                    assert(sv[a] == svt[a]);
                    assert(sv[b] == svt[b]);
                    assert(distinct_names(svt));
                }
            }
        } else {
            assert(distinct_names(svt));
        }
    }
}


/// A name is deleted exactly when it is listed and not retained.
proof fn lemma_deletions_iff(names: Seq<Seq<char>>, retained: Set<Seq<char>>, n: Seq<char>)
    ensures
        spec_deletions(names, retained).contains(n) <==> (names.contains(n)
            && !retained.contains(n)),
    decreases names.len(),
{
    let del = spec_deletions(names, retained);
    if names.len() > 0 {
        let t = names.drop_last();
        lemma_deletions_iff(t, retained, n);
        let delt = spec_deletions(t, retained);
        if del.contains(n) {
            let i = choose|i: int| 0 <= i < del.len() && del[i] == n;
            if !retained.contains(names.last()) && i == del.len() - 1 {
                assert(names[names.len() - 1] == n);
                assert(names.contains(n));
            } else {
                assert(del[i] == delt[i]);
                assert(delt.contains(n));
                let j = choose|j: int| 0 <= j < t.len() && t[j] == n;
                assert(names[j] == n);
                assert(names.contains(n));
            }
        }
        if names.contains(n) && !retained.contains(n) {
            let i = choose|i: int| 0 <= i < names.len() && names[i] == n;
            if i == names.len() - 1 {
                assert(del[del.len() - 1] == n);
            } else {
                assert(t[i] == n);
                assert(t.contains(n));
                assert(delt.contains(n));
                let j = choose|j: int| 0 <= j < delt.len() && delt[j] == n;
                assert(del[j] == delt[j]);
            }
        }
    }
}

/// With nothing retained, the deletion list is the input list itself.
proof fn lemma_deletions_empty(names: Seq<Seq<char>>)
    ensures
        spec_deletions(names, Set::<Seq<char>>::empty()) == names,
    decreases names.len(),
{
    if names.len() > 0 {
        lemma_deletions_empty(names.drop_last());
        assert(spec_deletions(names, Set::<Seq<char>>::empty()) =~= names.drop_last().push(
            names.last(),
        ));
        assert(names.drop_last().push(names.last()) =~= names);
    }
}

/// For any artifact list with pairwise distinct names and any retention
/// count, the engine retains exactly `min(count, survivor pool size)`
/// names.
pub proof fn lemma_retained_size(names: Seq<Seq<char>>, count: int, period_days: int, now: int)
    requires
        names.no_duplicates(),
        count >= 0,
    ensures
        spec_retained_names(names, count, period_days, now).finite(),
        spec_retained_names(names, count, period_days, now).len() == vstd::math::min(
            count,
            spec_survivors(names, period_days, now).len() as int,
        ),
{
    let pool = spec_survivors(names, period_days, now);
    let sorted = sort_desc(pool);
    lemma_survivors_distinct(names, period_days, now);
    lemma_sort_desc_props(pool);
    lemma_names_of_facts(sorted);
    assert(names_of(sorted).disjoint(Set::<Seq<char>>::empty()));
    lemma_retained_loop_size(sorted, Set::<Seq<char>>::empty(), count);
}

/// The newest parseable artifact inside the retention window is never
/// deleted while the policy retains at least one artifact.
pub proof fn lemma_newest_survivor_kept(
    names: Seq<Seq<char>>,
    count: int,
    period_days: int,
    now: int,
    i: int,
)
    requires
        count >= 1,
        0 <= i < names.len(),
        spec_in_period(names[i], period_days, now),
        forall|j: int|
            0 <= j < names.len() && j != i && spec_in_period(
                #[trigger] names[j],
                period_days,
                now,
            ) ==> spec_backup_epoch(names[j]).unwrap() < spec_backup_epoch(names[i]).unwrap(),
    ensures
        !spec_backups_to_delete(names, count, period_days, now).contains(names[i]),
{
    let d = spec_backup_epoch(names[i]).unwrap();
    let entry = (names[i], d);
    let pool = spec_survivors(names, period_days, now);
    let sorted = sort_desc(pool);
    lemma_survivors_contains(names, period_days, now, i);
    lemma_sort_desc_props(pool);
    assert(sorted.contains(entry));
    let k = choose|k: int| 0 <= k < sorted.len() && sorted[k] == entry;
    assert(sorted.len() > 0);
    assert(sorted.contains(sorted[0]));
    assert(pool.contains(sorted[0]));
    let m = choose|m: int| 0 <= m < pool.len() && pool[m] == sorted[0];
    lemma_survivors_entry(names, period_days, now, m);
    let j = choose|j: int|
        0 <= j < names.len() && spec_in_period(names[j], period_days, now) && pool[m] == (
        names[j],
        spec_backup_epoch(names[j]).unwrap(),
        );
    assert(sorted[0].1 >= sorted[k].1);
    assert(sorted[0].0 == names[i]) by {
        if j != i {
            assert(spec_backup_epoch(names[j]).unwrap() < d);
            assert(sorted[0].1 < d);
        }
    }
    // the first distribution pass retains the head of the sorted pool
    let retained = spec_retained_names(names, count, period_days, now);
    assert(retained.contains(names[i])) by {
        let e: Set<Seq<char>> = Set::<Seq<char>>::empty();
        assert(e.len() < count);
        let interval = ceil_div(sorted.len() as int, count - e.len());
        let sel = pass_select(sorted, 0, 0, interval);
        assert(sel[0] == sorted[0]);
        assert(sel.map_values(|p: PoolEntry| p.0)[0] == sorted[0].0);
        assert(names_of(sel).contains(names[i]));
        let retained2 = e + names_of(sel);
        let pool2 = spec_prune_pool(sorted, retained2);
        if pool2.len() == 0 {
            assert(retained == retained2);
        } else {
            lemma_retained_loop_mono(pool2, retained2, count);
            assert(retained == spec_retained_loop(pool2, retained2, count));
            assert(retained2.contains(names[i]));
        }
    }
    lemma_deletions_iff(names, retained, names[i]);
}

/// A name that does not follow the naming convention is always deleted,
/// whatever the count and period.
pub proof fn lemma_unparseable_deleted(
    names: Seq<Seq<char>>,
    count: int,
    period_days: int,
    now: int,
    i: int,
)
    requires
        0 <= i < names.len(),
        crate::timestamp::spec_parse_backup_date(names[i]) is None,
    ensures
        spec_backups_to_delete(names, count, period_days, now).contains(names[i]),
{
    let pool = spec_survivors(names, period_days, now);
    let sorted = sort_desc(pool);
    let retained = spec_retained_names(names, count, period_days, now);
    lemma_sort_desc_props(pool);
    lemma_retained_loop_sub(sorted, Set::<Seq<char>>::empty(), count);
    lemma_names_of_facts(pool);
    lemma_names_of_facts(sorted);
    assert(!retained.contains(names[i])) by {
        if retained.contains(names[i]) {
            assert(names_of(sorted).contains(names[i]));
            assert(names_of(pool).contains(names[i]));
            let k = choose|k: int| 0 <= k < pool.len() && pool[k].0 == names[i];
            lemma_survivors_entry(names, period_days, now, k);
            let j = choose|j: int|
                0 <= j < names.len() && spec_in_period(names[j], period_days, now) && pool[k] == (
                names[j],
                spec_backup_epoch(names[j]).unwrap(),
                );
            assert(names[j] == names[i]);
            assert(spec_in_period(names[i], period_days, now));
        }
    }
    assert(names.contains(names[i]));
    lemma_deletions_iff(names, retained, names[i]);
}

/// With a retention count of zero nothing is ever retained: the deletion
/// list is the whole input, whatever the artifacts' ages.
pub proof fn lemma_count_zero_deletes_all(names: Seq<Seq<char>>, period_days: int, now: int)
    ensures
        spec_backups_to_delete(names, 0, period_days, now) == names,
{
    let e: Set<Seq<char>> = Set::<Seq<char>>::empty();
    assert(spec_retained_names(names, 0, period_days, now) == e);
    lemma_deletions_empty(names);
}

/// The selection is deterministic: any two results computed from the same
/// artifact list, policy and clock are equal, so running it twice changes
/// nothing.
pub proof fn lemma_selection_deterministic(
    names: Seq<Seq<char>>,
    count: int,
    period_days: int,
    now: int,
    r1: Seq<Seq<char>>,
    r2: Seq<Seq<char>>,
)
    requires
        r1 == spec_backups_to_delete(names, count, period_days, now),
        r2 == spec_backups_to_delete(names, count, period_days, now),
    ensures
        r1 == r2,
{
}

} // verus!
