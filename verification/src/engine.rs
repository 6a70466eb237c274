//! The retention policy engine: from a list of artifact names and a
//! retention policy, the names to delete so that what is kept is bounded
//! in count, bounded in age, spread evenly over the retention window, and
//! always includes the newest artifact.
//!
//! The whole selection is modelled by spec functions over sequences of
//! names; the executable engine is proved to compute exactly that model.

use vstd::prelude::*;
use vstd::arithmetic::div_mod::{
    lemma_basic_div_specific_divisor, lemma_div_basics, lemma_div_is_ordered_by_denominator,
    lemma_div_plus_one,
};
use crate::timestamp::{spec_parse_backup_date, Timestamp};

verus! {

/// An artifact that passed the age filter: its name and its timestamp as
/// seconds since the Unix epoch.
pub type PoolEntry = (Seq<char>, int);

/// The epoch second embedded in `name`, if `name` follows the naming
/// convention.
pub open spec fn spec_backup_epoch(name: Seq<char>) -> Option<int> {
    match spec_parse_backup_date(name) {
        Some(t) => Some(t.spec_epoch_seconds()),
        None => None,
    }
}

/// The oldest epoch second still inside the retention window.
pub open spec fn spec_cutoff(now: int, period_days: int) -> int {
    now - period_days * 86400
}

/// `name` parses under the naming convention and its date lies strictly
/// inside the retention window.
pub open spec fn spec_in_period(name: Seq<char>, period_days: int, now: int) -> bool {
    match spec_backup_epoch(name) {
        Some(d) => d > spec_cutoff(now, period_days),
        None => false,
    }
}

/// The survivor pool: every artifact that parses and lies inside the
/// retention window, in input order, paired with its epoch second.
pub open spec fn spec_survivors(names: Seq<Seq<char>>, period_days: int, now: int) -> Seq<
    PoolEntry,
>
    decreases names.len(),
{
    if names.len() == 0 {
        Seq::<PoolEntry>::empty()
    } else {
        let rest = spec_survivors(names.drop_last(), period_days, now);
        let n = names.last();
        if spec_in_period(n, period_days, now) {
            rest.push((n, spec_backup_epoch(n).unwrap()))
        } else {
            rest
        }
    }
}

/// Non-increasing by date.
pub open spec fn sorted_desc(s: Seq<PoolEntry>) -> bool {
    forall|i: int, j: int| 0 <= i <= j < s.len() ==> s[i].1 >= s[j].1
}

/// Inserts `x` behind every entry whose date is at least as new, so that
/// insertion into a stably sorted sequence stays stable.
pub open spec fn insert_desc(x: PoolEntry, s: Seq<PoolEntry>) -> Seq<PoolEntry>
    decreases s.len(),
{
    if s.len() == 0 {
        seq![x]
    } else if s[0].1 >= x.1 {
        seq![s[0]] + insert_desc(x, s.drop_first())
    } else {
        seq![x] + s
    }
}

/// The survivor pool sorted newest first; entries with equal dates keep
/// their input order.
pub open spec fn sort_desc(s: Seq<PoolEntry>) -> Seq<PoolEntry>
    decreases s.len(),
{
    if s.len() == 0 {
        s
    } else {
        insert_desc(s.last(), sort_desc(s.drop_last()))
    }
}

/// The names carried by the entries of `s`.
pub open spec fn names_of(s: Seq<PoolEntry>) -> Set<Seq<char>> {
    s.map_values(|p: PoolEntry| p.0).to_set()
}

/// One distribution pass over the pool, scanned from index `i` with the
/// last retained index `last`: index 0 is always retained, and after it
/// every entry at least `interval` positions past the previous retained
/// one.
pub open spec fn pass_select(s: Seq<PoolEntry>, i: int, last: int, interval: int) -> Seq<
    PoolEntry,
>
    decreases s.len() - i,
{
    if i >= s.len() {
        Seq::<PoolEntry>::empty()
    } else if i == 0 || i - last >= interval {
        seq![s[i]] + pass_select(s, i + 1, i, interval)
    } else {
        pass_select(s, i + 1, last, interval)
    }
}

/// The pool without the entries whose names are already retained.
pub open spec fn spec_prune_pool(s: Seq<PoolEntry>, retained: Set<Seq<char>>) -> Seq<PoolEntry>
    decreases s.len(),
{
    if s.len() == 0 {
        s
    } else {
        let rest = spec_prune_pool(s.drop_last(), retained);
        if retained.contains(s.last().0) {
            rest
        } else {
            rest.push(s.last())
        }
    }
}

pub proof fn lemma_prune_pool_len(s: Seq<PoolEntry>, retained: Set<Seq<char>>)
    ensures
        spec_prune_pool(s, retained).len() <= s.len(),
    decreases s.len(),
{
    if s.len() > 0 {
        lemma_prune_pool_len(s.drop_last(), retained);
    }
}

/// Pruning drops at least the entry at `k` whose name is retained.
pub proof fn lemma_prune_pool_drops(s: Seq<PoolEntry>, retained: Set<Seq<char>>, k: int)
    requires
        0 <= k < s.len(),
        retained.contains(s[k].0),
    ensures
        spec_prune_pool(s, retained).len() < s.len(),
    decreases s.len(),
{
    if k == s.len() - 1 {
        lemma_prune_pool_len(s.drop_last(), retained);
    } else {
        lemma_prune_pool_drops(s.drop_last(), retained, k);
    }
}

/// The ceiling of `len / slots`.
pub open spec fn ceil_div(len: int, slots: int) -> int {
    (len + slots - 1) / slots
}

/// The count-bounded even distribution over the sorted survivor pool:
/// repeat a distribution pass, fold what it retained into the retained
/// set, drop it from the pool, and stop once the retained set reaches
/// `count` names or the pool is exhausted.
pub open spec fn spec_retained_loop(
    pool: Seq<PoolEntry>,
    retained: Set<Seq<char>>,
    count: int,
) -> Set<Seq<char>>
    decreases pool.len(),
    via spec_retained_loop_decreases
{
    if retained.len() >= count {
        retained
    } else {
        let interval = ceil_div(pool.len() as int, count - retained.len());
        let retained2 = retained + names_of(pass_select(pool, 0, 0, interval));
        let pool2 = spec_prune_pool(pool, retained2);
        if pool2.len() == 0 {
            retained2
        } else {
            spec_retained_loop(pool2, retained2, count)
        }
    }
}

#[via_fn]
proof fn spec_retained_loop_decreases(
    pool: Seq<PoolEntry>,
    retained: Set<Seq<char>>,
    count: int,
) {
    if retained.len() < count {
        let interval = ceil_div(pool.len() as int, count - retained.len());
        let selected = pass_select(pool, 0, 0, interval);
        let retained2 = retained + names_of(selected);
        let pool2 = spec_prune_pool(pool, retained2);
        if pool2.len() != 0 {
            lemma_prune_pool_len(pool, retained2);
            assert(pool.len() > 0);
            assert(selected[0] == pool[0]);
            assert(selected.map_values(|p: PoolEntry| p.0)[0] == pool[0].0);
            assert(names_of(selected).contains(pool[0].0));
            lemma_prune_pool_drops(pool, retained2, 0);
        }
    }
}

/// The names retained by the whole engine for the given inputs.
pub open spec fn spec_retained_names(
    names: Seq<Seq<char>>,
    count: int,
    period_days: int,
    now: int,
) -> Set<Seq<char>> {
    spec_retained_loop(
        sort_desc(spec_survivors(names, period_days, now)),
        Set::<Seq<char>>::empty(),
        count,
    )
}

/// The names the engine deletes: every input name not retained, in input
/// order.
pub open spec fn spec_deletions(names: Seq<Seq<char>>, retained: Set<Seq<char>>) -> Seq<
    Seq<char>,
>
    decreases names.len(),
{
    if names.len() == 0 {
        names
    } else {
        let rest = spec_deletions(names.drop_last(), retained);
        if retained.contains(names.last()) {
            rest
        } else {
            rest.push(names.last())
        }
    }
}

/// What `filter_backups_to_delete` returns, as a function of its inputs.
pub open spec fn spec_backups_to_delete(
    names: Seq<Seq<char>>,
    count: int,
    period_days: int,
    now: int,
) -> Seq<Seq<char>> {
    spec_deletions(names, spec_retained_names(names, count, period_days, now))
}


/// The mathematical view of an in-memory pool entry.
pub open spec fn pool_view(s: Seq<(String, i64)>) -> Seq<PoolEntry> {
    s.map_values(|e: (String, i64)| (e.0@, e.1 as int))
}

/// `insert_desc` places `x` at the first position whose date is older.
proof fn lemma_insert_desc_at(x: PoolEntry, s: Seq<PoolEntry>, pos: int)
    requires
        0 <= pos <= s.len(),
        forall|j: int| 0 <= j < pos ==> s[j].1 >= x.1,
        pos < s.len() ==> s[pos].1 < x.1,
    ensures
        insert_desc(x, s) =~~= s.take(pos) + seq![x] + s.skip(pos),
    decreases pos,
{
    if pos == 0 {
        if s.len() == 0 {
            assert(insert_desc(x, s) =~= seq![x]);
        }
    } else {
        let t = s.drop_first();
        assert(forall|j: int| 0 <= j < pos - 1 ==> t[j].1 >= x.1);
        lemma_insert_desc_at(x, t, pos - 1);
        assert(t.take(pos - 1) =~= s.take(pos).drop_first());
        assert(t.skip(pos - 1) =~= s.skip(pos));
    }
}

proof fn lemma_to_set_push(s: Seq<Seq<char>>, x: Seq<char>)
    ensures
        s.push(x).to_set() =~= s.to_set().insert(x),
{
    assert forall|a: Seq<char>|
        s.push(x).to_set().contains(a) implies s.to_set().insert(x).contains(a) by {
        let i = choose|i: int| 0 <= i < s.push(x).len() && s.push(x)[i] == a;
        if i < s.len() {
            assert(s[i] == a);
            assert(s.contains(a));
        } else {
            assert(a == x);
        }
    }
    assert forall|a: Seq<char>|
        s.to_set().insert(x).contains(a) implies s.push(x).to_set().contains(a) by {
        if a == x {
            assert(s.push(x)[s.len() as int] == a);
        } else {
            let i = choose|i: int| 0 <= i < s.len() && s[i] == a;
            assert(s.push(x)[i] == a);
        }
        assert(s.push(x).contains(a));
    }
}

/// Whether some entry of `v` equals the string `s`.
fn vec_contains_str(v: &Vec<String>, s: &String) -> (r: bool)
    ensures
        r == v.deep_view().contains(s@),
{
    let mut i: usize = 0;
    while i < v.len()
        invariant
            i <= v.len(),
            forall|j: int| 0 <= j < i ==> v.deep_view()[j] != s@,
        decreases v.len() - i,
    {
        if v[i].eq(s) {
            proof {
                assert(v.deep_view()[i as int] == s@);
            }
            return true;
        }
        proof {
            assert(v.deep_view()[i as int] == v@[i as int]@);
        }
        i = i + 1;
    }
    false
}

/// Step A of the engine: the survivor pool, in input order.
fn collect_survivors(backups: &Vec<String>, period: usize, now: i64) -> (pool: Vec<
    (String, i64),
>)
    ensures
        pool_view(pool@) == spec_survivors(backups.deep_view(), period as int, now as int),
{
    let mut pool: Vec<(String, i64)> = Vec::new();
    let mut i: usize = 0;
    let ghost names = backups.deep_view();
    proof {
        assert(names.take(0) =~= Seq::<Seq<char>>::empty());
        assert(pool_view(pool@) =~= Seq::<PoolEntry>::empty());
    }
    while i < backups.len()
        invariant
            i <= backups.len(),
            names == backups.deep_view(),
            names.len() == backups.len(),
            pool_view(pool@) == spec_survivors(names.take(i as int), period as int, now as int),
        decreases backups.len() - i,
    {
        let name = &backups[i];
        let ghost nview = name@;
        proof {
            assert(names[i as int] == nview);
            assert(names.take(i + 1).drop_last() =~= names.take(i as int));
            assert(names.take(i + 1).last() == nview);
        }
        match crate::timestamp::parse_backup_date(name.as_str()) {
            Some(t) => {
                proof {
                    crate::timestamp::lemma_parse_backup_date_format(nview, t);
                }
                let e: i64 = t.epoch_seconds();
                let within = (e as i128) > (now as i128) - (period as i128) * 86400;
                proof {
                    assert(within == spec_in_period(nview, period as int, now as int));
                }
                if within {
                    let ghost pre = pool_view(pool@);
                    pool.push((name.clone(), e));
                    proof {
                        assert(pool_view(pool@) =~= pre.push((nview, e as int)));
                    }
                }
            },
            None => {
                proof {
                    assert(!spec_in_period(nview, period as int, now as int));
                }
            },
        }
        i = i + 1;
    }
    proof {
        assert(names.take(i as int) =~= names);
    }
    pool
}

/// Step B of the engine, first half: the survivor pool sorted newest
/// first, entries with equal dates keeping their input order.
fn sort_pool(pool: Vec<(String, i64)>) -> (r: Vec<(String, i64)>)
    ensures
        pool_view(r@) == sort_desc(pool_view(pool@)),
{
    let ghost pv = pool_view(pool@);
    let mut sorted: Vec<(String, i64)> = Vec::new();
    let mut i: usize = 0;
    proof {
        assert(pv.take(0) =~= Seq::<PoolEntry>::empty());
        assert(pool_view(sorted@) =~= Seq::<PoolEntry>::empty());
    }
    while i < pool.len()
        invariant
            i <= pool.len(),
            pv == pool_view(pool@),
            pv.len() == pool.len(),
            pool_view(sorted@) == sort_desc(pv.take(i as int)),
        decreases pool.len() - i,
    {
        let nm = pool[i].0.clone();
        let dt = pool[i].1;
        let ghost x: PoolEntry = (nm@, dt as int);
        proof {
            assert(pv[i as int] == x);
            assert(pv.take(i + 1).drop_last() =~= pv.take(i as int));
            assert(pv.take(i + 1).last() == x);
        }
        let mut pos: usize = 0;
        while pos < sorted.len() && sorted[pos].1 >= dt
            invariant
                pos <= sorted.len(),
                x.1 == dt as int,
                forall|j: int| 0 <= j < pos ==> pool_view(sorted@)[j].1 >= x.1,
            decreases sorted.len() - pos,
        {
            proof {
                assert(pool_view(sorted@)[pos as int].1 == sorted@[pos as int].1 as int);
                assert(pool_view(sorted@)[pos as int].1 >= x.1);
            }
            pos = pos + 1;
        }
        proof {
            if pos < sorted.len() {
                assert(sorted@[pos as int].1 < dt);
                assert(pool_view(sorted@)[pos as int].1 < x.1);
            }
            lemma_insert_desc_at(x, pool_view(sorted@), pos as int);
        }
        let ghost pre = pool_view(sorted@);
        sorted.insert(pos, (nm, dt));
        proof {
            assert(pool_view(sorted@) =~= pre.take(pos as int) + seq![x] + pre.skip(pos as int));
        }
        i = i + 1;
    }
    proof {
        assert(pv.take(i as int) =~= pv);
    }
    sorted
}

/// Step B of the engine, second half: repeated distribution passes until
/// `count` names are retained or the pool is exhausted.
fn select_retained(sorted: Vec<(String, i64)>, count: usize) -> (retained: Vec<String>)
    ensures
        retained.deep_view().no_duplicates(),
        retained.deep_view().to_set() == spec_retained_loop(
            pool_view(sorted@),
            Set::<Seq<char>>::empty(),
            count as int,
        ),
{
    let ghost target = spec_retained_loop(
        pool_view(sorted@),
        Set::<Seq<char>>::empty(),
        count as int,
    );
    let mut cur = sorted;
    let mut retained: Vec<String> = Vec::new();
    proof {
        assert(retained.deep_view().to_set() =~= Set::<Seq<char>>::empty());
    }
    while retained.len() < count
        invariant
            retained.deep_view().no_duplicates(),
            retained.len() == retained.deep_view().to_set().len(),
            spec_retained_loop(pool_view(cur@), retained.deep_view().to_set(), count as int)
                == target,
        ensures
            retained.deep_view().no_duplicates(),
            retained.deep_view().to_set() == target,
        decreases pool_view(cur@).len(),
    {
        let ghost pv = pool_view(cur@);
        let ghost rset = retained.deep_view().to_set();
        let slots: usize = count - retained.len();
        proof {
            if cur.len() > 0 {
                lemma_div_is_ordered_by_denominator(cur.len() - 1, 1, slots as int);
                lemma_div_basics(cur.len() - 1);
                lemma_div_plus_one(cur.len() - 1, slots as int);
            } else {
                lemma_basic_div_specific_divisor(slots as int);
            }
        }
        let interval: usize = if cur.is_empty() {
            0
        } else {
            1 + (cur.len() - 1) / slots
        };
        proof {
            assert(interval == ceil_div(pv.len() as int, count - retained.len()));
        }
        // one distribution pass over the current pool
        let mut sel: Vec<String> = Vec::new();
        let ghost gsel = Seq::<PoolEntry>::empty();
        let mut last_keep: usize = 0;
        let mut i: usize = 0;
        proof {
            assert(sel.deep_view() =~= gsel.map_values(|p: PoolEntry| p.0));
        }
        while i < cur.len()
            invariant
                i <= cur.len(),
                last_keep <= i,
                i > 0 ==> last_keep < i,
                pv == pool_view(cur@),
                pv.len() == cur.len(),
                sel.deep_view() == gsel.map_values(|p: PoolEntry| p.0),
                pass_select(pv, 0, 0, interval as int) =~~= gsel + pass_select(
                    pv,
                    i as int,
                    last_keep as int,
                    interval as int,
                ),
            decreases cur.len() - i,
        {
            let ghost gsel0 = gsel;
            if i == 0 || (i - last_keep) >= interval {
                let ghost pre = sel.deep_view();
                sel.push(cur[i].0.clone());
                proof {
                    assert(pv[i as int] == (cur@[i as int].0@, cur@[i as int].1 as int));
                    gsel = gsel0.push(pv[i as int]);
                    assert(sel.deep_view() =~= pre.push(cur@[i as int].0@));
                    assert(sel.deep_view() =~= gsel.map_values(|p: PoolEntry| p.0));
                    assert(pass_select(pv, i as int, last_keep as int, interval as int)
                        == seq![pv[i as int]] + pass_select(
                        pv,
                        i + 1,
                        i as int,
                        interval as int,
                    ));
                    assert(gsel0 + (seq![pv[i as int]] + pass_select(
                        pv,
                        i + 1,
                        i as int,
                        interval as int,
                    )) =~~= gsel + pass_select(pv, i + 1, i as int, interval as int));
                }
                last_keep = i;
            } else {
                proof {
                    assert(pass_select(pv, i as int, last_keep as int, interval as int)
                        == pass_select(pv, i + 1, last_keep as int, interval as int));
                }
            }
            i = i + 1;
        }
        proof {
            assert(pass_select(pv, i as int, last_keep as int, interval as int)
                == Seq::<PoolEntry>::empty());
            assert(pass_select(pv, 0, 0, interval as int) =~~= gsel);
        }
        // fold this pass's names into the retained set
        let ghost rset0 = retained.deep_view().to_set();
        let mut k: usize = 0;
        proof {
            assert(sel.deep_view().take(0).to_set() =~= Set::<Seq<char>>::empty());
            assert(rset0 + sel.deep_view().take(0).to_set() =~= rset0);
        }
        while k < sel.len()
            invariant
                k <= sel.len(),
                retained.deep_view().no_duplicates(),
                retained.len() == retained.deep_view().to_set().len(),
                retained.deep_view().to_set() == rset0 + sel.deep_view().take(k as int).to_set(),
            decreases sel.len() - k,
        {
            let ghost rpre = retained.deep_view();
            let present = vec_contains_str(&retained, &sel[k]);
            proof {
                assert(sel.deep_view()[k as int] == sel@[k as int]@);
                assert(sel.deep_view().take(k + 1).drop_last() =~= sel.deep_view().take(
                    k as int,
                ));
                assert(sel.deep_view().take(k + 1) =~= sel.deep_view().take(k as int).push(
                    sel.deep_view()[k as int],
                ));
                lemma_to_set_push(sel.deep_view().take(k as int), sel.deep_view()[k as int]);
            }
            if !present {
                retained.push(sel[k].clone());
                proof {
                    assert(retained.deep_view() =~= rpre.push(sel@[k as int]@));
                    lemma_to_set_push(rpre, sel@[k as int]@);
                    assert(retained.deep_view().to_set() =~= rpre.to_set().insert(
                        sel@[k as int]@,
                    ));
                    assert(retained.deep_view().no_duplicates()) by {
                        assert(forall|a: int, b: int|
                            0 <= a < b < retained.deep_view().len() ==> retained.deep_view()[a]
                                != retained.deep_view()[b]) by {
                            assert(forall|a: int|
                                0 <= a < rpre.len() ==> retained.deep_view()[a] == rpre[a]);
                            assert(!rpre.to_set().contains(sel@[k as int]@));
                            assert(forall|a: int|
                                0 <= a < rpre.len() ==> rpre.to_set().contains(#[trigger] rpre[a]));
                        }
                    }
                    retained.deep_view().unique_seq_to_set();
                    assert(retained.deep_view().to_set() =~= rset0 + sel.deep_view().take(
                        k + 1,
                    ).to_set());
                }
            } else {
                proof {
                    assert(retained.deep_view().to_set() =~= rset0 + sel.deep_view().take(
                        k + 1,
                    ).to_set());
                }
            }
            k = k + 1;
        }
        let ghost retained2 = retained.deep_view().to_set();
        proof {
            assert(sel.deep_view().take(sel.len() as int) =~= sel.deep_view());
            assert(names_of(gsel) == gsel.map_values(|p: PoolEntry| p.0).to_set());
            assert(retained2 =~= rset + names_of(pass_select(pv, 0, 0, interval as int)));
        }
        // drop retained names from the pool
        let mut pruned: Vec<(String, i64)> = Vec::new();
        let mut m: usize = 0;
        proof {
            assert(pv.take(0) =~= Seq::<PoolEntry>::empty());
            assert(pool_view(pruned@) =~= Seq::<PoolEntry>::empty());
        }
        while m < cur.len()
            invariant
                m <= cur.len(),
                pv == pool_view(cur@),
                pv.len() == cur.len(),
                retained2 == retained.deep_view().to_set(),
                pool_view(pruned@) == spec_prune_pool(pv.take(m as int), retained2),
            decreases cur.len() - m,
        {
            proof {
                assert(pv.take(m + 1).drop_last() =~= pv.take(m as int));
                assert(pv.take(m + 1).last() == pv[m as int]);
                assert(pv[m as int] == (cur@[m as int].0@, cur@[m as int].1 as int));
            }
            let keep = !vec_contains_str(&retained, &cur[m].0);
            if keep {
                let ghost ppre = pool_view(pruned@);
                pruned.push((cur[m].0.clone(), cur[m].1));
                proof {
                    assert(pool_view(pruned@) =~= ppre.push(pv[m as int]));
                }
            }
            m = m + 1;
        }
        proof {
            assert(pv.take(cur.len() as int) =~= pv);
        }
        cur = pruned;
        proof {
            assert(spec_retained_loop(pv, rset, count as int) == (if spec_prune_pool(
                pv,
                retained2,
            ).len() == 0 {
                retained2
            } else {
                spec_retained_loop(spec_prune_pool(pv, retained2), retained2, count as int)
            }));
            if pool_view(cur@).len() != 0 {
                lemma_prune_pool_len(pv, retained2);
                assert(pv.len() > 0);
                assert(pass_select(pv, 0, 0, interval as int)[0] == pv[0]);
                assert(gsel[0] == pv[0]);
                assert(gsel.map_values(|p: PoolEntry| p.0)[0] == pv[0].0);
                assert(names_of(gsel).contains(pv[0].0));
                lemma_prune_pool_drops(pv, retained2, 0);
            }
        }
        if cur.is_empty() {
            proof {
                assert(pool_view(cur@).len() == 0);
                assert(target == spec_retained_loop(pool_view(cur@), retained2, count as int));
                assert(spec_retained_loop(pool_view(cur@), retained2, count as int)
                    == retained2) by {
                    if retained2.len() < count {
                        let iv = ceil_div(0, count - retained2.len() as int);
                        assert(pass_select(pool_view(cur@), 0, 0, iv)
                            == Seq::<PoolEntry>::empty());
                        assert(names_of(Seq::<PoolEntry>::empty())
                            =~= Set::<Seq<char>>::empty());
                        assert(retained2 + Set::<Seq<char>>::empty() =~= retained2);
                        assert(spec_prune_pool(pool_view(cur@), retained2
                            + Set::<Seq<char>>::empty()).len() == 0);
                    }
                }
            }
            break ;
        }
    }
    retained
}


/// Decides, from the listed artifact names and the retention policy, which
/// artifacts to delete: every name that is unparseable, outside the
/// retention window, or not chosen by the count-bounded even distribution
/// over the survivor pool. Pure: the result is a function of the inputs
/// alone, with `now` the current second since the Unix epoch.
pub fn filter_backups_to_delete(
    backups: Vec<String>,
    retention: &crate::retention::RetentionPolicy,
    now: i64,
) -> (r: Vec<String>)
    ensures
        r.deep_view() == spec_backups_to_delete(
            backups.deep_view(),
            retention.count as int,
            retention.period as int,
            now as int,
        ),
{
    let ghost names = backups.deep_view();
    let pool = collect_survivors(&backups, retention.period, now);
    let sorted = sort_pool(pool);
    let retained = select_retained(sorted, retention.count);
    let ghost rset = spec_retained_names(
        names,
        retention.count as int,
        retention.period as int,
        now as int,
    );
    proof {
        assert(retained.deep_view().to_set() == rset);
    }
    let mut out: Vec<String> = Vec::new();
    let mut i: usize = 0;
    proof {
        assert(names.take(0) =~= Seq::<Seq<char>>::empty());
        assert(out.deep_view() =~= Seq::<Seq<char>>::empty());
    }
    while i < backups.len()
        invariant
            i <= backups.len(),
            names == backups.deep_view(),
            names.len() == backups.len(),
            retained.deep_view().to_set() == rset,
            out.deep_view() == spec_deletions(names.take(i as int), rset),
        decreases backups.len() - i,
    {
        proof {
            assert(names.take(i + 1).drop_last() =~= names.take(i as int));
            assert(names.take(i + 1).last() == names[i as int]);
            assert(names[i as int] == backups@[i as int]@);
        }
        let keep = vec_contains_str(&retained, &backups[i]);
        if !keep {
            let ghost pre = out.deep_view();
            out.push(backups[i].clone());
            proof {
                assert(out.deep_view() =~= pre.push(names[i as int]));
            }
        }
        i = i + 1;
    }
    proof {
        assert(names.take(i as int) =~= names);
    }
    out
}

} // verus!
