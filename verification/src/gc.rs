//! Garbage collection of the local OCI unpack cache: grouping of cache
//! file names, the retention plan, and the human-readable sizes and ages
//! of the report.
use vstd::prelude::*;

use crate::num::{digits_value, is_digit, lemma_scan_all_digits, scan_digits_exec};
use crate::text::{
    chars_of, decimal, digit_char, push_char, push_decimal, range_is, same_chars, string_of,
    string_of_range, trim, trim_bounds,
};

verus! {

// ---------------------------------------------------------------------------
// Lexicographic order on texts (the order in which groups are reported)
// ---------------------------------------------------------------------------

/// `a` sorts strictly before `b`, comparing characters by code point.
pub open spec fn seq_lt(a: Seq<char>, b: Seq<char>) -> bool
    decreases a.len(),
{
    if a.len() == 0 {
        b.len() > 0
    } else if b.len() == 0 {
        false
    } else if a[0] != b[0] {
        (a[0] as int) < (b[0] as int)
    } else {
        seq_lt(a.drop_first(), b.drop_first())
    }
}

pub proof fn lemma_seq_lt_irreflexive(a: Seq<char>)
    ensures
        !seq_lt(a, a),
    decreases a.len(),
{
    if a.len() > 0 {
        lemma_seq_lt_irreflexive(a.drop_first());
    }
}

pub proof fn lemma_seq_lt_transitive(a: Seq<char>, b: Seq<char>, c: Seq<char>)
    requires
        seq_lt(a, b),
        seq_lt(b, c),
    ensures
        seq_lt(a, c),
    decreases a.len(),
{
    if a.len() > 0 && b.len() > 0 && c.len() > 0 {
        if a[0] == b[0] && b[0] == c[0] {
            lemma_seq_lt_transitive(a.drop_first(), b.drop_first(), c.drop_first());
        }
    }
}

pub proof fn lemma_seq_lt_total(a: Seq<char>, b: Seq<char>)
    requires
        a != b,
    ensures
        seq_lt(a, b) || seq_lt(b, a),
    decreases a.len(),
{
    if a.len() > 0 && b.len() > 0 && a[0] == b[0] {
        if a.drop_first() == b.drop_first() {
            assert(a =~= seq![a[0]] + a.drop_first());
            assert(b =~= seq![b[0]] + b.drop_first());
        }
        lemma_seq_lt_total(a.drop_first(), b.drop_first());
    } else if a.len() == 0 && b.len() == 0 {
        assert(a =~= b);
    }
}

pub proof fn lemma_seq_lt_asymmetric(a: Seq<char>, b: Seq<char>)
    requires
        seq_lt(a, b),
    ensures
        !seq_lt(b, a),
{
    if seq_lt(b, a) {
        lemma_seq_lt_transitive(a, b, a);
        lemma_seq_lt_irreflexive(a);
    }
}

/// Whether `a` sorts strictly before `b`.
pub fn text_less(a: &Vec<char>, b: &Vec<char>) -> (r: bool)
    ensures
        r == seq_lt(a@, b@),
{
    let mut i: usize = 0;
    assert(a@.skip(0) =~= a@);
    assert(b@.skip(0) =~= b@);
    while i < a.len() && i < b.len()
        invariant
            i <= a.len(),
            i <= b.len(),
            seq_lt(a@, b@) == seq_lt(a@.skip(i as int), b@.skip(i as int)),
        decreases a.len() - i,
    {
        assert(a@.skip(i as int)[0] == a@[i as int]);
        assert(b@.skip(i as int)[0] == b@[i as int]);
        if a[i] != b[i] {
            return a[i] < b[i];
        }
        assert(a@.skip(i as int).drop_first() =~= a@.skip(i + 1));
        assert(b@.skip(i as int).drop_first() =~= b@.skip(i + 1));
        i = i + 1;
    }
    assert(a@.skip(i as int).len() == a@.len() - i);
    assert(b@.skip(i as int).len() == b@.len() - i);
    i < b.len()
}

// ---------------------------------------------------------------------------
// Cache entries and the retention plan
// ---------------------------------------------------------------------------

/// Instants are nanoseconds relative to the UNIX epoch. Every instant a
/// `SystemTime` can hold (whole seconds within `i64`) lies in this range.
pub open spec fn valid_instant(t: i128) -> bool {
    -9_223_372_036_854_775_808_000_000_000i128 <= t < 9_223_372_036_854_775_808_000_000_000i128
}

/// One file of the OCI unpack cache.
#[derive(Debug, Clone)]
pub struct CacheEntry {
    pub path: String,
    /// Grouping key: the file stem with its trailing `_tag` stripped.
    pub group: String,
    /// Everything after the final `_` of the stem.
    pub tag: String,
    /// Modification time, in nanoseconds relative to the UNIX epoch.
    pub mtime: i128,
    pub size: u64,
}

/// What the collector keeps and what it removes, in report order.
#[derive(Debug)]
pub struct GcPlan {
    pub kept: Vec<CacheEntry>,
    pub removed: Vec<CacheEntry>,
}

fn copy_entry(e: &CacheEntry) -> (r: CacheEntry)
    ensures
        r == *e,
{
    CacheEntry {
        path: e.path.clone(),
        group: e.group.clone(),
        tag: e.tag.clone(),
        mtime: e.mtime,
        size: e.size,
    }
}

/// Entries `i` and `j` belong to the same plugin.
pub open spec fn same_group(e: Seq<CacheEntry>, i: int, j: int) -> bool {
    e[i].group@ == e[j].group@
}

/// Within a group, entry `j` comes before entry `i` when sorted newest
/// first; entries of equal age keep their input order.
pub open spec fn sorts_newer(e: Seq<CacheEntry>, j: int, i: int) -> bool {
    e[j].mtime > e[i].mtime || (e[j].mtime == e[i].mtime && j < i)
}

/// How many of the first `n` entries sort before entry `i` in its group.
pub open spec fn count_newer(e: Seq<CacheEntry>, i: int, n: int) -> nat
    decreases n,
{
    if n <= 0 {
        0
    } else {
        count_newer(e, i, n - 1) + if same_group(e, n - 1, i) && sorts_newer(e, n - 1, i) {
            1nat
        } else {
            0nat
        }
    }
}

/// The position of entry `i` in its group sorted newest first (0 for the
/// newest).
pub open spec fn recency_rank(e: Seq<CacheEntry>, i: int) -> nat {
    count_newer(e, i, e.len() as int)
}

/// The entry is at least `older_than` old at `now`. An entry whose
/// modification time lies after `now` has no age and never qualifies.
pub open spec fn old_enough(mtime: i128, older_than: Option<u128>, now: i128) -> bool {
    match older_than {
        Some(t) => now >= mtime && now - mtime >= t,
        None => false,
    }
}

/// The plan removes entry `i`: it is beyond the `keep_latest` newest of
/// its group and old enough.
pub open spec fn gc_removes(
    e: Seq<CacheEntry>,
    keep_latest: usize,
    older_than: Option<u128>,
    now: i128,
    i: int,
) -> bool {
    recency_rank(e, i) >= keep_latest && old_enough(e[i].mtime, older_than, now)
}

/// Report order: groups in ascending order, each group newest first.
pub open spec fn listed_before(e: Seq<CacheEntry>, i: int, j: int) -> bool {
    seq_lt(e[i].group@, e[j].group@) || (same_group(e, i, j) && sorts_newer(e, i, j))
}

/// `order` lists every index of `e` once, in report order.
pub open spec fn report_order(e: Seq<CacheEntry>, order: Seq<usize>) -> bool {
    &&& order.len() == e.len()
    &&& order.no_duplicates()
    &&& forall|k: int| 0 <= k < order.len() ==> order[k] < e.len()
    &&& forall|a: int, b: int|
        0 <= a < b < order.len() ==> #[trigger] listed_before(e, order[a] as int, order[b] as int)
}

/// The entries of `e`, taken in `order`, that the plan removes (`removed`)
/// or keeps (`!removed`).
pub open spec fn listed(
    e: Seq<CacheEntry>,
    order: Seq<usize>,
    keep_latest: usize,
    older_than: Option<u128>,
    now: i128,
    removed: bool,
) -> Seq<CacheEntry> {
    order.filter(|i: usize| gc_removes(e, keep_latest, older_than, now, i as int) == removed).map_values(
        |i: usize| e[i as int],
    )
}

proof fn lemma_listed_before_total(e: Seq<CacheEntry>, i: int, j: int)
    requires
        0 <= i < e.len(),
        0 <= j < e.len(),
        i != j,
    ensures
        listed_before(e, i, j) || listed_before(e, j, i),
{
    if e[i].group@ != e[j].group@ {
        lemma_seq_lt_total(e[i].group@, e[j].group@);
    }
}

proof fn lemma_listed_before_transitive(e: Seq<CacheEntry>, i: int, j: int, k: int)
    requires
        listed_before(e, i, j),
        listed_before(e, j, k),
    ensures
        listed_before(e, i, k),
{
    let (gi, gj, gk) = (e[i].group@, e[j].group@, e[k].group@);
    if seq_lt(gi, gj) && seq_lt(gj, gk) {
        lemma_seq_lt_transitive(gi, gj, gk);
    }
}

proof fn lemma_listed_before_irreflexive(e: Seq<CacheEntry>, i: int)
    ensures
        !listed_before(e, i, i),
{
    lemma_seq_lt_irreflexive(e[i].group@);
}

fn listed_before_exec(entries: &[CacheEntry], groups: &Vec<Vec<char>>, i: usize, j: usize) -> (r:
    bool)
    requires
        groups.len() == entries.len(),
        forall|k: int| 0 <= k < groups.len() ==> (#[trigger] groups@[k])@ == entries@[k].group@,
        i < entries.len(),
        j < entries.len(),
    ensures
        r == listed_before(entries@, i as int, j as int),
{
    if text_less(&groups[i], &groups[j]) {
        true
    } else if same_chars(&groups[i], &groups[j]) {
        entries[i].mtime > entries[j].mtime || (entries[i].mtime == entries[j].mtime && i < j)
    } else {
        false
    }
}

fn is_old_enough(mtime: i128, older_than: Option<u128>, now: i128) -> (r: bool)
    requires
        valid_instant(mtime),
        valid_instant(now),
    ensures
        r == old_enough(mtime, older_than, now),
{
    match older_than {
        Some(t) => {
            if now >= mtime {
                let age: i128 = now - mtime;
                (age as u128) >= t
            } else {
                false
            }
        },
        None => false,
    }
}

/// Decide what to remove.
///
/// Entries are grouped by `group`; within a group they are sorted newest
/// first (equal ages keep their input order). The `keep_latest` newest
/// entries of each group are always kept; an entry beyond them is removed
/// iff `older_than` is given and the entry's age at `now` meets or exceeds
/// it. Both lists come in report order: groups ascending, newest first.
pub fn plan_gc(entries: &[CacheEntry], keep_latest: usize, older_than: Option<u128>, now: i128) -> (plan:
    GcPlan)
    requires
        valid_instant(now),
        forall|k: int| 0 <= k < entries@.len() ==> valid_instant(#[trigger] entries@[k].mtime),
    ensures
        exists|order: Seq<usize>|
            {
                &&& #[trigger] report_order(entries@, order)
                &&& plan.kept@ == listed(entries@, order, keep_latest, older_than, now, false)
                &&& plan.removed@ == listed(entries@, order, keep_latest, older_than, now, true)
            },
{
    let n = entries.len();
    let ghost e = entries@;

    let mut groups: Vec<Vec<char>> = Vec::new();
    let mut g: usize = 0;
    while g < n
        invariant
            n == e.len(),
            e == entries@,
            g <= n,
            groups.len() == g,
            forall|k: int| 0 <= k < g ==> (#[trigger] groups@[k])@ == e[k].group@,
        decreases n - g,
    {
        groups.push(chars_of(entries[g].group.as_str()));
        g = g + 1;
    }

    // The recency rank of every entry within its group.
    let mut ranks: Vec<usize> = Vec::new();
    let mut i: usize = 0;
    while i < n
        invariant
            n == e.len(),
            e == entries@,
            i <= n,
            groups.len() == n,
            forall|k: int| 0 <= k < n ==> (#[trigger] groups@[k])@ == e[k].group@,
            ranks.len() == i,
            forall|k: int| 0 <= k < i ==> ranks@[k] == recency_rank(e, k),
        decreases n - i,
    {
        let mut cnt: usize = 0;
        let mut j: usize = 0;
        while j < n
            invariant
                n == e.len(),
                e == entries@,
                i < n,
                j <= n,
                groups.len() == n,
                forall|k: int| 0 <= k < n ==> (#[trigger] groups@[k])@ == e[k].group@,
                cnt == count_newer(e, i as int, j as int),
                cnt <= j,
            decreases n - j,
        {
            if same_chars(&groups[j], &groups[i]) && (entries[j].mtime > entries[i].mtime || (
            entries[j].mtime == entries[i].mtime && j < i)) {
                cnt = cnt + 1;
            }
            j = j + 1;
        }
        ranks.push(cnt);
        i = i + 1;
    }

    // Insertion sort of the indices into report order.
    let mut order: Vec<usize> = Vec::new();
    let mut k: usize = 0;
    while k < n
        invariant
            n == e.len(),
            e == entries@,
            k <= n,
            groups.len() == n,
            forall|q: int| 0 <= q < n ==> (#[trigger] groups@[q])@ == e[q].group@,
            order.len() == k,
            order@.no_duplicates(),
            forall|q: int| 0 <= q < k ==> order@[q] < k,
            forall|a: int, b: int|
                0 <= a < b < k ==> #[trigger] listed_before(e, order@[a] as int, order@[b] as int),
        decreases n - k,
    {
        let mut p: usize = 0;
        while p < order.len() && listed_before_exec(entries, &groups, order[p], k)
            invariant
                n == e.len(),
                e == entries@,
                k < n,
                groups.len() == n,
                forall|q: int| 0 <= q < n ==> (#[trigger] groups@[q])@ == e[q].group@,
                order.len() == k,
                forall|q: int| 0 <= q < k ==> order@[q] < k,
                p <= order.len(),
                forall|q: int| 0 <= q < p ==> listed_before(e, order@[q] as int, k as int),
            decreases order.len() - p,
        {
            p = p + 1;
        }
        let ghost old_order = order@;
        proof {
            if p < k {
                lemma_listed_before_total(e, old_order[p as int] as int, k as int);
            }
        }
        order.insert(p, k);
        proof {
            assert forall|a: int, b: int| 0 <= a < b < k + 1 implies #[trigger] listed_before(
                e,
                order@[a] as int,
                order@[b] as int,
            ) by {
                if a < p && b == p {
                } else if a == p && b > p {
                    if b - 1 > p {
                        assert(listed_before(e, old_order[p as int] as int, old_order[b - 1] as int));
                        lemma_listed_before_transitive(
                            e,
                            k as int,
                            old_order[p as int] as int,
                            old_order[b - 1] as int,
                        );
                    }
                } else if a < p && b > p {
                    assert(listed_before(e, old_order[a] as int, old_order[b - 1] as int));
                } else if a > p {
                    assert(listed_before(e, old_order[a - 1] as int, old_order[b - 1] as int));
                } else {
                    assert(listed_before(e, old_order[a] as int, old_order[b] as int));
                }
            }
            assert forall|a: int, b: int| 0 <= a < order@.len() && 0 <= b < order@.len() && a
                != b implies order@[a] != order@[b] by {
                if a < b {
                    lemma_listed_before_irreflexive(e, order@[a] as int);
                } else {
                    lemma_listed_before_irreflexive(e, order@[b] as int);
                }
            }
        }
        k = k + 1;
    }

    // Walk the report order, splitting kept from removed.
    let mut kept: Vec<CacheEntry> = Vec::new();
    let mut removed: Vec<CacheEntry> = Vec::new();
    let mut t: usize = 0;
    while t < n
        invariant
            n == e.len(),
            e == entries@,
            t <= n,
            valid_instant(now),
            forall|q: int| 0 <= q < n ==> valid_instant(#[trigger] e[q].mtime),
            order.len() == n,
            forall|q: int| 0 <= q < n ==> order@[q] < n,
            ranks.len() == n,
            forall|q: int| 0 <= q < n ==> ranks@[q] == recency_rank(e, q),
            kept@ == listed(e, order@.take(t as int), keep_latest, older_than, now, false),
            removed@ == listed(e, order@.take(t as int), keep_latest, older_than, now, true),
        decreases n - t,
    {
        let idx = order[t];
        let ghost prev = order@.take(t as int);
        assert(order@.take(t + 1).drop_last() =~= prev);
        let goes = ranks[idx] >= keep_latest && is_old_enough(entries[idx].mtime, older_than, now);
        assert(goes == gc_removes(e, keep_latest, older_than, now, idx as int));
        if goes {
            removed.push(copy_entry(&entries[idx]));
        } else {
            kept.push(copy_entry(&entries[idx]));
        }
        let ghost fk = |i: usize| gc_removes(e, keep_latest, older_than, now, i as int) == false;
        let ghost fr = |i: usize| gc_removes(e, keep_latest, older_than, now, i as int) == true;
        let ghost m = |i: usize| e[i as int];
        reveal_with_fuel(Seq::<_>::filter, 1);
        assert(order@.take(t + 1).filter(fk) == if fk(idx) {
            prev.filter(fk).push(idx)
        } else {
            prev.filter(fk)
        });
        assert(order@.take(t + 1).filter(fr) == if fr(idx) {
            prev.filter(fr).push(idx)
        } else {
            prev.filter(fr)
        });
        assert(prev.filter(fk).push(idx).map_values(m) =~= prev.filter(fk).map_values(m).push(
            e[idx as int],
        ));
        assert(prev.filter(fr).push(idx).map_values(m) =~= prev.filter(fr).map_values(m).push(
            e[idx as int],
        ));
        t = t + 1;
    }
    assert(order@.take(n as int) =~= order@);
    assert(report_order(e, order@));
    GcPlan { kept, removed }
}

// ---------------------------------------------------------------------------
// Laws of the retention plan
// ---------------------------------------------------------------------------

proof fn lemma_filter_lengths(s: Seq<usize>, p: spec_fn(usize) -> bool, q: spec_fn(usize) -> bool)
    requires
        forall|x: usize| #[trigger] p(x) == !q(x),
    ensures
        s.filter(p).len() + s.filter(q).len() == s.len(),
    decreases s.len(),
{
    reveal_with_fuel(Seq::<_>::filter, 1);
    if s.len() > 0 {
        lemma_filter_lengths(s.drop_last(), p, q);
    }
}

proof fn lemma_filter_none(s: Seq<usize>, p: spec_fn(usize) -> bool)
    requires
        forall|x: usize| !#[trigger] p(x),
    ensures
        s.filter(p).len() == 0,
    decreases s.len(),
{
    reveal_with_fuel(Seq::<_>::filter, 1);
    if s.len() > 0 {
        lemma_filter_none(s.drop_last(), p);
    }
}

/// Every entry lands in exactly one of the two lists: the kept and the
/// removed entries together are as many as the entries.
pub proof fn lemma_plan_partitions(
    e: Seq<CacheEntry>,
    order: Seq<usize>,
    keep_latest: usize,
    older_than: Option<u128>,
    now: i128,
)
    requires
        report_order(e, order),
    ensures
        listed(e, order, keep_latest, older_than, now, false).len() + listed(
            e,
            order,
            keep_latest,
            older_than,
            now,
            true,
        ).len() == e.len(),
{
    lemma_filter_lengths(
        order,
        |i: usize| gc_removes(e, keep_latest, older_than, now, i as int) == false,
        |i: usize| gc_removes(e, keep_latest, older_than, now, i as int) == true,
    );
}

/// Without `--older-than` nothing is ever removed: every entry is kept.
pub proof fn lemma_no_threshold_keeps_all(e: Seq<CacheEntry>, order: Seq<usize>, keep_latest: usize, now: i128)
    requires
        report_order(e, order),
    ensures
        listed(e, order, keep_latest, None, now, true).len() == 0,
        listed(e, order, keep_latest, None, now, false).len() == e.len(),
{
    lemma_filter_none(order, |i: usize| gc_removes(e, keep_latest, None, now, i as int) == true);
    lemma_plan_partitions(e, order, keep_latest, None, now);
}

/// A sequence of `n` distinct indices below `n` holds each of them.
proof fn lemma_perm_covers(order: Seq<usize>, n: int, i: int) -> (k: int)
    requires
        order.len() == n,
        order.no_duplicates(),
        forall|q: int| 0 <= q < order.len() ==> order[q] < n,
        0 <= i < n,
    ensures
        0 <= k < order.len(),
        order[k] == i,
{
    let oi = order.map_values(|x: usize| x as int);
    assert(oi.no_duplicates()) by {
        assert forall|a: int, b: int| 0 <= a < oi.len() && 0 <= b < oi.len() && a != b implies oi[a]
            != oi[b] by {
            assert(order[a] != order[b]);
        }
    }
    oi.unique_seq_to_set();
    vstd::set_lib::lemma_int_range(0, n);
    let range = vstd::set_lib::set_int_range(0, n);
    assert(oi.to_set().subset_of(range)) by {
        assert forall|x: int| oi.to_set().contains(x) implies range.contains(x) by {
            let k = choose|k: int| 0 <= k < oi.len() && oi[k] == x;
            assert(order[k] < n);
        }
    }
    vstd::set_lib::lemma_len_subset(oi.to_set(), range);
    vstd::set_lib::lemma_subset_equality(oi.to_set(), range);
    assert(range.contains(i));
    assert(oi.to_set().contains(i));
    let k = choose|k: int| 0 <= k < oi.len() && oi[k] == i;
    k
}

/// A report order lists every index of the entries.
proof fn lemma_order_covers(e: Seq<CacheEntry>, order: Seq<usize>, i: int) -> (k: int)
    requires
        report_order(e, order),
        0 <= i < e.len(),
    ensures
        0 <= k < order.len(),
        order[k] == i,
{
    lemma_perm_covers(order, e.len() as int, i)
}

/// Taking the entries in an order that lists each index once gives the
/// same multiset of entries.
proof fn lemma_perm_multiset(e: Seq<CacheEntry>, order: Seq<usize>)
    requires
        order.len() == e.len(),
        order.no_duplicates(),
        forall|q: int| 0 <= q < order.len() ==> order[q] < e.len(),
    ensures
        order.map_values(|i: usize| e[i as int]).to_multiset() == e.to_multiset(),
    decreases e.len(),
{
    broadcast use vstd::multiset::group_multiset_axioms, vstd::seq_lib::group_to_multiset_ensures;

    let m = |i: usize| e[i as int];
    let om = order.map_values(m);
    if e.len() == 0 {
        assert(om =~= Seq::<CacheEntry>::empty());
        assert(e =~= Seq::<CacheEntry>::empty());
    } else {
        let n = e.len() as int;
        let k = lemma_perm_covers(order, n, n - 1);
        let o2 = order.remove(k);
        let e2 = e.drop_last();
        assert forall|q: int| 0 <= q < o2.len() implies o2[q] < e2.len() by {
            let q2 = if q < k { q } else { q + 1 };
            assert(o2[q] == order[q2]);
            assert(q2 != k);
        }
        assert(o2.no_duplicates()) by {
            assert forall|a: int, b: int| 0 <= a < o2.len() && 0 <= b < o2.len() && a != b implies o2[a]
                != o2[b] by {
                let a2 = if a < k { a } else { a + 1 };
                let b2 = if b < k { b } else { b + 1 };
                assert(o2[a] == order[a2] && o2[b] == order[b2]);
            }
        }
        lemma_perm_multiset(e2, o2);
        assert(o2.map_values(|i: usize| e2[i as int]) =~= o2.map_values(m));
        assert(om.remove(k) =~= o2.map_values(m));
        assert(om[k] == e[n - 1]);
        assert(e.remove(n - 1) =~= e2);
        let a = om.to_multiset();
        let b = e.to_multiset();
        let x = e[n - 1];
        assert(a.remove(x) == b.remove(x));
        assert(om.contains(x));
        assert(e.contains(x));
        assert(a =~= b) by {
            assert forall|y: CacheEntry| a.count(y) == b.count(y) by {
                if y != x {
                    assert(a.remove(x).count(y) == a.count(y));
                    assert(b.remove(x).count(y) == b.count(y));
                } else {
                    assert(a.remove(x).count(x) == a.count(x) - 1);
                    assert(b.remove(x).count(x) == b.count(x) - 1);
                }
            }
        }
    }
}

proof fn lemma_filter_split_multiset(
    s: Seq<usize>,
    p: spec_fn(usize) -> bool,
    q: spec_fn(usize) -> bool,
    m: spec_fn(usize) -> CacheEntry,
)
    requires
        forall|x: usize| #[trigger] p(x) == !q(x),
    ensures
        (s.filter(p).map_values(m) + s.filter(q).map_values(m)).to_multiset() == s.map_values(
            m,
        ).to_multiset(),
    decreases s.len(),
{
    broadcast use vstd::multiset::group_multiset_axioms, vstd::seq_lib::group_to_multiset_ensures;

    reveal_with_fuel(Seq::<_>::filter, 1);
    if s.len() == 0 {
        assert(s.filter(p) =~= Seq::<usize>::empty());
        assert(s.filter(q) =~= Seq::<usize>::empty());
        assert(s.map_values(m) =~= Seq::<CacheEntry>::empty());
        assert(s.filter(p).map_values(m) + s.filter(q).map_values(m) =~= Seq::<CacheEntry>::empty());
    } else {
        let t = s.drop_last();
        let x = s.last();
        lemma_filter_split_multiset(t, p, q, m);
        let fp = t.filter(p).map_values(m);
        let fq = t.filter(q).map_values(m);
        assert(s.map_values(m) =~= t.map_values(m).push(m(x)));
        vstd::seq_lib::lemma_multiset_commutative(fp, fq);
        if p(x) {
            assert(s.filter(p).map_values(m) =~= fp.push(m(x)));
            assert(s.filter(q).map_values(m) =~= fq);
            vstd::seq_lib::lemma_multiset_commutative(fp.push(m(x)), fq);
            assert((fp.push(m(x)) + fq).to_multiset() =~= (fp + fq).to_multiset().insert(m(x)));
        } else {
            assert(s.filter(p).map_values(m) =~= fp);
            assert(s.filter(q).map_values(m) =~= fq.push(m(x)));
            vstd::seq_lib::lemma_multiset_commutative(fp, fq.push(m(x)));
            assert((fp + fq.push(m(x))).to_multiset() =~= (fp + fq).to_multiset().insert(m(x)));
        }
    }
}

/// The kept and the removed entries together are exactly the entries:
/// each one once, unchanged.
pub proof fn lemma_plan_is_permutation(
    e: Seq<CacheEntry>,
    order: Seq<usize>,
    keep_latest: usize,
    older_than: Option<u128>,
    now: i128,
)
    requires
        report_order(e, order),
    ensures
        (listed(e, order, keep_latest, older_than, now, false) + listed(
            e,
            order,
            keep_latest,
            older_than,
            now,
            true,
        )).to_multiset() == e.to_multiset(),
{
    lemma_filter_split_multiset(
        order,
        |i: usize| gc_removes(e, keep_latest, older_than, now, i as int) == false,
        |i: usize| gc_removes(e, keep_latest, older_than, now, i as int) == true,
        |i: usize| e[i as int],
    );
    lemma_perm_multiset(e, order);
}

proof fn lemma_filter_keeps_order(e: Seq<CacheEntry>, s: Seq<usize>, p: spec_fn(usize) -> bool)
    requires
        forall|a: int, b: int| 0 <= a < b < s.len() ==> #[trigger] listed_before(e, s[a] as int, s[b] as int),
    ensures
        forall|a: int, b: int|
            0 <= a < b < s.filter(p).len() ==> #[trigger] listed_before(
                e,
                s.filter(p)[a] as int,
                s.filter(p)[b] as int,
            ),
    decreases s.len(),
{
    reveal_with_fuel(Seq::<_>::filter, 1);
    if s.len() > 0 {
        let t = s.drop_last();
        let x = s.last();
        assert forall|a: int, b: int| 0 <= a < b < t.len() implies #[trigger] listed_before(
            e,
            t[a] as int,
            t[b] as int,
        ) by {
            assert(t[a] == s[a] && t[b] == s[b]);
        }
        lemma_filter_keeps_order(e, t, p);
        let ft = t.filter(p);
        if p(x) {
            let f = s.filter(p);
            assert(f =~= ft.push(x));
            assert forall|a: int, b: int| 0 <= a < b < f.len() implies #[trigger] listed_before(
                e,
                f[a] as int,
                f[b] as int,
            ) by {
                if b == f.len() - 1 {
                    assert(ft.contains(f[a])) by {
                        assert(ft[a] == f[a]);
                    }
                    t.lemma_filter_contains_rev(p, f[a]);
                    let ka = choose|ka: int| 0 <= ka < t.len() && t[ka] == f[a];
                    assert(s[ka] == f[a]);
                    assert(s[s.len() - 1] == x);
                    assert(listed_before(e, s[ka] as int, s[s.len() - 1] as int));
                } else {
                    assert(f[a] == ft[a] && f[b] == ft[b]);
                }
            }
        } else {
            assert(s.filter(p) =~= ft);
        }
    }
}

/// The indices of the entries a list holds, in the order listed.
pub open spec fn listed_indices(
    e: Seq<CacheEntry>,
    order: Seq<usize>,
    keep_latest: usize,
    older_than: Option<u128>,
    now: i128,
    removed: bool,
) -> Seq<usize> {
    order.filter(|i: usize| gc_removes(e, keep_latest, older_than, now, i as int) == removed)
}

/// Each list comes in report order: groups ascending, and within a group
/// newest first, entries of equal age in input order.
pub proof fn lemma_plan_in_report_order(
    e: Seq<CacheEntry>,
    order: Seq<usize>,
    keep_latest: usize,
    older_than: Option<u128>,
    now: i128,
    removed: bool,
)
    requires
        report_order(e, order),
    ensures
        listed(e, order, keep_latest, older_than, now, removed) == listed_indices(
            e,
            order,
            keep_latest,
            older_than,
            now,
            removed,
        ).map_values(|i: usize| e[i as int]),
        forall|a: int, b: int|
            0 <= a < b < listed_indices(e, order, keep_latest, older_than, now, removed).len()
                ==> #[trigger] listed_before(
                e,
                listed_indices(e, order, keep_latest, older_than, now, removed)[a] as int,
                listed_indices(e, order, keep_latest, older_than, now, removed)[b] as int,
            ),
{
    let p = |i: usize| gc_removes(e, keep_latest, older_than, now, i as int) == removed;
    lemma_filter_keeps_order(e, order, p);
}

/// Every entry is listed, in the list the policy assigns it to: removed
/// when it is beyond the `keep_latest` newest of its group and old
/// enough, kept otherwise.
pub proof fn lemma_every_entry_listed(
    e: Seq<CacheEntry>,
    order: Seq<usize>,
    keep_latest: usize,
    older_than: Option<u128>,
    now: i128,
    i: int,
)
    requires
        report_order(e, order),
        0 <= i < e.len(),
    ensures
        listed(e, order, keep_latest, older_than, now, gc_removes(e, keep_latest, older_than, now, i)).contains(
            e[i],
        ),
{
    let removed = gc_removes(e, keep_latest, older_than, now, i);
    let p = |x: usize| gc_removes(e, keep_latest, older_than, now, x as int) == removed;
    let k = lemma_order_covers(e, order, i);
    order.lemma_filter_contains(p, k);
    let f = order.filter(p);
    let j = choose|j: int| 0 <= j < f.len() && f[j] == order[k];
    let l = listed(e, order, keep_latest, older_than, now, removed);
    assert(l[j] == e[i]);
}

proof fn lemma_count_newer_depends_on_group(e1: Seq<CacheEntry>, e2: Seq<CacheEntry>, i: int, n: int)
    requires
        0 <= i < e1.len(),
        0 <= i < e2.len(),
        n <= e1.len(),
        n <= e2.len(),
        e1[i].group@ == e2[i].group@,
        e1[i].mtime == e2[i].mtime,
        forall|j: int| 0 <= j < n ==> (same_group(e1, j, i) <==> same_group(e2, j, i)),
        forall|j: int| 0 <= j < n && same_group(e1, j, i) ==> e1[j].mtime == e2[j].mtime,
    ensures
        count_newer(e1, i, n) == count_newer(e2, i, n),
    decreases n,
{
    if n > 0 {
        lemma_count_newer_depends_on_group(e1, e2, i, n - 1);
    }
}

/// Whether an entry is removed depends only on the entries of its own
/// group: two caches that agree on the group of entry `i` (which entries
/// belong to it, and their modification times) remove it or keep it
/// alike, whatever the entries of other groups are.
pub proof fn lemma_removal_is_per_group(
    e1: Seq<CacheEntry>,
    e2: Seq<CacheEntry>,
    keep_latest: usize,
    older_than: Option<u128>,
    now: i128,
    i: int,
)
    requires
        e1.len() == e2.len(),
        0 <= i < e1.len(),
        e1[i].group@ == e2[i].group@,
        e1[i].mtime == e2[i].mtime,
        forall|j: int| 0 <= j < e1.len() ==> (same_group(e1, j, i) <==> same_group(e2, j, i)),
        forall|j: int| 0 <= j < e1.len() && same_group(e1, j, i) ==> e1[j].mtime == e2[j].mtime,
    ensures
        gc_removes(e1, keep_latest, older_than, now, i) == gc_removes(e2, keep_latest, older_than, now, i),
{
    lemma_count_newer_depends_on_group(e1, e2, i, e1.len() as int);
}

/// Adding a cache file of another plugin never changes whether an entry
/// is removed.
pub proof fn lemma_other_group_does_not_matter(
    e: Seq<CacheEntry>,
    x: CacheEntry,
    keep_latest: usize,
    older_than: Option<u128>,
    now: i128,
    i: int,
)
    requires
        0 <= i < e.len(),
        x.group@ != e[i].group@,
    ensures
        gc_removes(e.push(x), keep_latest, older_than, now, i) == gc_removes(e, keep_latest, older_than, now, i),
{
    let e2 = e.push(x);
    assert(e2[i] == e[i]);
    assert forall|j: int| 0 <= j < e.len() implies (same_group(e2, j, i) <==> same_group(e, j, i)) by {
        assert(e2[j] == e[j]);
    }
    lemma_count_newer_depends_on_group(e2, e, i, e.len() as int);
    assert(!same_group(e2, e.len() as int, i));
}

proof fn lemma_rank_below_group_size(e: Seq<CacheEntry>, i: int, n: int)
    requires
        0 <= i < e.len(),
        0 <= n <= e.len(),
    ensures
        count_newer(e, i, n) + (if i < n { 1int } else { 0 }) <= e.take(n).filter(
            |x: CacheEntry| x.group@ == e[i].group@,
        ).len(),
    decreases n,
{
    reveal_with_fuel(Seq::<_>::filter, 1);
    let p = |x: CacheEntry| x.group@ == e[i].group@;
    if n > 0 {
        lemma_rank_below_group_size(e, i, n - 1);
        assert(e.take(n).drop_last() =~= e.take(n - 1));
        assert(e.take(n).last() == e[n - 1]);
    }
}

/// An entry whose plugin has at most `keep_latest` files in the cache is
/// always kept: the keep count applies per plugin, not across plugins.
pub proof fn lemma_small_group_kept(
    e: Seq<CacheEntry>,
    keep_latest: usize,
    older_than: Option<u128>,
    now: i128,
    i: int,
)
    requires
        0 <= i < e.len(),
        e.filter(|x: CacheEntry| x.group@ == e[i].group@).len() <= keep_latest,
    ensures
        !gc_removes(e, keep_latest, older_than, now, i),
{
    lemma_rank_below_group_size(e, i, e.len() as int);
    assert(e.take(e.len() as int) =~= e);
}

/// Each removed entry is an entry beyond the `keep_latest` newest of its
/// group and at least `older_than` old; each kept entry is among the
/// `keep_latest` newest of its group or younger than the threshold.
pub proof fn lemma_plan_entries(
    e: Seq<CacheEntry>,
    order: Seq<usize>,
    keep_latest: usize,
    older_than: Option<u128>,
    now: i128,
    removed: bool,
    k: int,
)
    requires
        report_order(e, order),
        0 <= k < listed(e, order, keep_latest, older_than, now, removed).len(),
    ensures
        exists|i: int|
            0 <= i < e.len() && listed(e, order, keep_latest, older_than, now, removed)[k] == e[i] && (
            recency_rank(e, i) >= keep_latest && old_enough(e[i].mtime, older_than, now)) == removed,
{
    let p = |i: usize| gc_removes(e, keep_latest, older_than, now, i as int) == removed;
    let f = order.filter(p);
    let idx = f[k];
    order.lemma_filter_pred(p, k);
    assert(f.contains(idx));
    order.lemma_filter_contains_rev(p, idx);
    let w = choose|w: int| 0 <= w < order.len() && order[w] == idx;
    assert(idx < e.len());
    assert(listed(e, order, keep_latest, older_than, now, removed)[k] == e[idx as int]);
}

} // verus!

verus! {

// ---------------------------------------------------------------------------
// Cache file names
// ---------------------------------------------------------------------------

/// `stem.rsplit_once('_')`, kept only when both sides are non-empty;
/// otherwise the whole stem is the group and the tag is empty.
pub open spec fn group_tag_of(stem: Seq<char>) -> (Seq<char>, Seq<char>) {
    if exists|p: int|
        0 < p < stem.len() - 1 && stem[p] == '_' && forall|q: int|
            p < q < stem.len() ==> stem[q] != '_' {
        let p = choose|p: int|
            0 < p < stem.len() - 1 && stem[p] == '_' && forall|q: int|
                p < q < stem.len() ==> stem[q] != '_';
        (stem.take(p), stem.skip(p + 1))
    } else {
        (stem, Seq::empty())
    }
}

/// The split is undone by joining with `_`: a non-empty tag has no `_`
/// and follows a non-empty group; an empty tag leaves the whole stem as
/// the group, which happens when no `_` after the first character and
/// before the last one is the last `_`.
pub proof fn lemma_group_tag_round_trip(stem: Seq<char>)
    ensures
        group_tag_of(stem).1.len() > 0 ==> {
            &&& group_tag_of(stem).0 + "_"@ + group_tag_of(stem).1 == stem
            &&& group_tag_of(stem).0.len() > 0
            &&& forall|i: int| 0 <= i < group_tag_of(stem).1.len() ==> group_tag_of(stem).1[i] != '_'
        },
        group_tag_of(stem).1.len() == 0 ==> {
            &&& group_tag_of(stem).0 == stem
            &&& forall|p: int|
                0 < p < stem.len() - 1 && stem[p] == '_' ==> exists|q: int| p < q < stem.len() && stem[q] == '_'
        },
{
    reveal_strlit("_");
    let (g, t) = group_tag_of(stem);
    if exists|p: int|
        0 < p < stem.len() - 1 && stem[p] == '_' && forall|q: int|
            p < q < stem.len() ==> stem[q] != '_' {
        let p = choose|p: int|
            0 < p < stem.len() - 1 && stem[p] == '_' && forall|q: int|
                p < q < stem.len() ==> stem[q] != '_';
        assert(g + "_"@ + t =~= stem);
        assert forall|i: int| 0 <= i < t.len() implies t[i] != '_' by {
            assert(t[i] == stem[p + 1 + i]);
        }
    } else {
        assert forall|p: int| 0 < p < stem.len() - 1 && stem[p] == '_' implies exists|q: int|
            p < q < stem.len() && stem[q] == '_' by {
            if !exists|q: int| p < q < stem.len() && stem[q] == '_' {
                assert(forall|q: int| p < q < stem.len() ==> stem[q] != '_');
            }
        }
    }
}

/// Splits a sanitised cache file stem into `(group, tag)` on its last `_`.
pub fn split_group_tag(stem: &str) -> (r: (String, String))
    ensures
        (r.0@, r.1@) == group_tag_of(stem@),
{
    let cs = chars_of(stem);
    let n = cs.len();
    let mut p: usize = n;
    while p > 0 && cs[p - 1] != '_'
        invariant
            p <= n == cs.len(),
            forall|q: int| p <= q < n ==> cs@[q] != '_',
        decreases p,
    {
        p = p - 1;
    }
    if p > 0 {
        let u = p - 1;
        if u > 0 && u + 1 < n {
            let ghost w = u as int;
            assert(0 < w < cs@.len() - 1 && cs@[w] == '_' && forall|q: int|
                w < q < cs@.len() ==> cs@[q] != '_');
            let ghost c = choose|p: int|
                0 < p < cs@.len() - 1 && cs@[p] == '_' && forall|q: int|
                    p < q < cs@.len() ==> cs@[q] != '_';
            assert(c == w) by {
                if c < w {
                } else if c > w {
                }
            }
            return (string_of_range(&cs, 0, u), string_of_range(&cs, u + 1, n));
        }
        assert forall|p2: int|
            0 < p2 < cs@.len() - 1 && cs@[p2] == '_' implies !(forall|q: int|
                p2 < q < cs@.len() ==> cs@[q] != '_') by {
            if p2 != u {
                assert(cs@[u as int] == '_');
            }
        }
    }
    (string_of(&cs), String::new())
}

// ---------------------------------------------------------------------------
// Durations
// ---------------------------------------------------------------------------

/// Number of leading ASCII digits.
pub open spec fn digit_run(s: Seq<char>) -> nat
    decreases s.len(),
{
    if s.len() > 0 && is_digit(s[0]) {
        1 + digit_run(s.drop_first())
    } else {
        0
    }
}

/// Seconds per unit, for the unit names a duration accepts.
pub open spec fn unit_seconds(u: Seq<char>) -> Option<nat> {
    if u == ""@ || u == "s"@ || u == "sec"@ || u == "secs"@ || u == "seconds"@ {
        Some(1)
    } else if u == "m"@ || u == "min"@ || u == "mins"@ || u == "minutes"@ {
        Some(60)
    } else if u == "h"@ || u == "hr"@ || u == "hrs"@ || u == "hour"@ || u == "hours"@ {
        Some(3600)
    } else if u == "d"@ || u == "day"@ || u == "days"@ {
        Some(86400)
    } else if u == "w"@ || u == "week"@ || u == "weeks"@ {
        Some(604800)
    } else {
        None
    }
}

/// The seconds a duration text such as `30d`, `12h` or `1 hour` denotes:
/// surrounding white space ignored, a decimal number, then an optional
/// unit (seconds when absent), possibly separated by white space. `None`
/// when malformed or when the result does not fit in a `u64`.
pub open spec fn duration_seconds(s: Seq<char>) -> Option<nat> {
    let t = trim(s);
    let k = digit_run(t);
    let v = digits_value(t.take(k as int));
    if t.len() == 0 || k == 0 || v > u64::MAX {
        None
    } else {
        match unit_seconds(trim(t.skip(k as int))) {
            None => None,
            Some(m) => if v * m > u64::MAX {
                None
            } else {
                Some(v * m)
            },
        }
    }
}

fn unit_seconds_exec(cs: &Vec<char>, from: usize, to: usize) -> (r: Option<u64>)
    requires
        from <= to <= cs.len(),
    ensures
        r matches Some(m) ==> unit_seconds(cs@.subrange(from as int, to as int)) == Some(m as nat),
        r is None ==> unit_seconds(cs@.subrange(from as int, to as int)) is None,
{
    if range_is(cs, from, to, "") || range_is(cs, from, to, "s") || range_is(cs, from, to, "sec")
        || range_is(cs, from, to, "secs") || range_is(cs, from, to, "seconds") {
        Some(1)
    } else if range_is(cs, from, to, "m") || range_is(cs, from, to, "min") || range_is(
        cs,
        from,
        to,
        "mins",
    ) || range_is(cs, from, to, "minutes") {
        Some(60)
    } else if range_is(cs, from, to, "h") || range_is(cs, from, to, "hr") || range_is(
        cs,
        from,
        to,
        "hrs",
    ) || range_is(cs, from, to, "hour") || range_is(cs, from, to, "hours") {
        Some(3600)
    } else if range_is(cs, from, to, "d") || range_is(cs, from, to, "day") || range_is(
        cs,
        from,
        to,
        "days",
    ) {
        Some(86400)
    } else if range_is(cs, from, to, "w") || range_is(cs, from, to, "week") || range_is(
        cs,
        from,
        to,
        "weeks",
    ) {
        Some(604800)
    } else {
        None
    }
}

/// Parse a human-friendly duration like `30d`, `12h`, `3600s`, `2w` into
/// seconds; the unit defaults to seconds when absent.
pub fn parse_duration_secs(s: &str) -> (r: Option<u64>)
    ensures
        r matches Some(v) ==> duration_seconds(s@) == Some(v as nat),
        r is None ==> duration_seconds(s@) is None,
{
    let cs = chars_of(s);
    let (a, b) = trim_bounds(&cs);
    let ghost t = trim(s@);
    if a == b {
        return None;
    }
    let mut k: usize = a;
    assert(t.skip(0) =~= t);
    while k < b && '0' <= cs[k] && cs[k] <= '9'
        invariant
            a <= k <= b <= cs.len(),
            t == cs@.subrange(a as int, b as int),
            digit_run(t) == (k - a) + digit_run(t.skip(k - a)),
            forall|q: int| a <= q < k ==> is_digit(#[trigger] cs@[q]),
        decreases b - k,
    {
        assert(t.skip(k - a).drop_first() =~= t.skip(k + 1 - a));
        k = k + 1;
    }
    assert(digit_run(t.skip(k - a)) == 0);
    if k == a {
        return None;
    }
    let ghost ds = t.take(k - a);
    assert(ds =~= cs@.subrange(a as int, k as int));
    proof {
        lemma_scan_all_digits(ds, u64::MAX as nat);
    }
    let v = match scan_digits_exec(&cs, a, k, u64::MAX) {
        Ok(v) => v,
        Err(_) => {
            return None;
        },
    };
    let unit = string_of_range(&cs, k, b);
    let uc = chars_of(unit.as_str());
    let (ua, ub) = trim_bounds(&uc);
    assert(uc@ =~= t.skip(k - a));
    match unit_seconds_exec(&uc, ua, ub) {
        None => None,
        Some(m) => v.checked_mul(m),
    }
}

} // verus!

verus! {

// ---------------------------------------------------------------------------
// Sizes and ages for the report
// ---------------------------------------------------------------------------

/// `num / den` rounded to the nearest integer, ties to even.
pub open spec fn half_even_div(num: nat, den: nat) -> nat {
    let q = num / den;
    let r = num % den;
    if 2 * r > den || (2 * r == den && q % 2 == 1) {
        q + 1
    } else {
        q
    }
}

/// The spacing of `f64` values around `n`: 1 below 2^53, doubling with
/// each further bit.
pub open spec fn f64_ulp(n: nat) -> nat
    decreases n,
{
    if n < 0x20_0000_0000_0000 {
        1
    } else {
        2 * f64_ulp(n / 2)
    }
}

/// `n as f64`: the nearest double, ties to even.
pub open spec fn nearest_f64(n: nat) -> nat {
    half_even_div(n, f64_ulp(n)) * f64_ulp(n)
}

/// `x` with `decimals` fractional digits, where `x` is given scaled by
/// 10^decimals (`decimals` is 1 or 2).
pub open spec fn fixed_point(scaled: nat, decimals: nat) -> Seq<char> {
    if decimals == 1 {
        decimal(scaled / 10) + seq!['.', digit_char(scaled % 10)]
    } else {
        decimal(scaled / 100) + seq!['.', digit_char((scaled % 100) / 10), digit_char(scaled % 10)]
    }
}

/// The text `format_bytes` gives for `n` bytes: `{:.2}G`, `{:.1}M`,
/// `{:.1}K` of the size as a float (decimal rounding ties to even), or
/// the plain byte count with `B`.
pub open spec fn byte_size_text(n: nat) -> Seq<char> {
    if n >= 0x4000_0000 {
        fixed_point(half_even_div(nearest_f64(n) * 100, 0x4000_0000), 2) + seq!['G']
    } else if n >= 0x10_0000 {
        fixed_point(half_even_div(n * 10, 0x10_0000), 1) + seq!['M']
    } else if n >= 0x400 {
        fixed_point(half_even_div(n * 10, 0x400), 1) + seq!['K']
    } else {
        decimal(n) + seq!['B']
    }
}

/// Below 2^53 a byte count converts to `f64` exactly, so each size is the
/// exact quotient rounded to the digits shown (ties to even): `n B` below
/// 1 KiB, then `KiB` and `MiB` to one decimal, `GiB` to two.
pub proof fn lemma_byte_size_exact(n: nat)
    requires
        n < 0x20_0000_0000_0000,
    ensures
        byte_size_text(n) == if n >= 0x4000_0000 {
            fixed_point(half_even_div(n * 100, 0x4000_0000), 2) + seq!['G']
        } else if n >= 0x10_0000 {
            fixed_point(half_even_div(n * 10, 0x10_0000), 1) + seq!['M']
        } else if n >= 0x400 {
            fixed_point(half_even_div(n * 10, 0x400), 1) + seq!['K']
        } else {
            decimal(n) + seq!['B']
        },
{
    assert(f64_ulp(n) == 1);
    assert(half_even_div(n, 1) == n);
    assert(nearest_f64(n) == n);
}

fn round_half_even(num: u128, den: u128) -> (r: u128)
    requires
        0 < den <= 0x1_0000_0000_0000_0000,
        num < 0x1_0000_0000_0000_0000_0000_0000,
    ensures
        r == half_even_div(num as nat, den as nat),
        r <= num / den + 1,
{
    let q = num / den;
    let rem = num % den;
    if 2 * rem > den || (2 * rem == den && q % 2 == 1) {
        q + 1
    } else {
        q
    }
}

fn push_fixed_point(s: &mut String, scaled: u64, decimals: u64)
    requires
        decimals == 1 || decimals == 2,
    ensures
        final(s)@ == old(s)@ + fixed_point(scaled as nat, decimals as nat),
{
    if decimals == 1 {
        push_decimal(s, scaled / 10);
        push_char(s, '.');
        push_char(s, digit_of(scaled % 10));
    } else {
        push_decimal(s, scaled / 100);
        push_char(s, '.');
        push_char(s, digit_of((scaled % 100) / 10));
        push_char(s, digit_of(scaled % 10));
    }
    assert(final(s)@ =~= old(s)@ + fixed_point(scaled as nat, decimals as nat));
}

fn digit_of(d: u64) -> (c: char)
    requires
        d < 10,
    ensures
        c == digit_char(d as nat),
{
    let b: u8 = 48u8 + (d as u8);
    b as char
}

/// Human-readable size: `42B`, `2.0K`, `3.0M`, `4.00G`.
pub fn format_bytes(n: u64) -> (r: String)
    ensures
        r@ == byte_size_text(n as nat),
{
    let mut s = String::new();
    if n >= 0x4000_0000 {
        let mut m: u64 = n;
        let mut ulp: u64 = 1;
        while m >= 0x20_0000_0000_0000
            invariant
                f64_ulp(n as nat) == ulp * f64_ulp(m as nat),
                1 <= ulp <= 4096,
                ulp * m <= n,
            decreases m,
        {
            assert(ulp * 0x20_0000_0000_0000 <= ulp * m) by (nonlinear_arith)
                requires
                    m >= 0x20_0000_0000_0000,
                    ulp >= 1,
            ;
            assert(2 * ulp * (m / 2) <= ulp * m) by (nonlinear_arith)
                requires
                    ulp >= 1,
            ;
            assert(ulp * (2 * f64_ulp((m / 2) as nat)) == (2 * ulp) * f64_ulp((m / 2) as nat))
                by (nonlinear_arith);
            m = m / 2;
            ulp = ulp * 2;
        }
        let qq = round_half_even(n as u128, ulp as u128);
        assert(qq <= n as u128 / ulp as u128 + 1);
        assert((n as u128 / ulp as u128) <= n as u128) by (nonlinear_arith)
            requires
                ulp >= 1,
        ;
        assert(qq * (ulp as u128) <= 0x1_0000_0000_0000_0001 * 4096) by (nonlinear_arith)
            requires
                qq <= 0x1_0000_0000_0000_0001,
                ulp <= 4096,
        ;
        let f: u128 = qq * (ulp as u128);
        assert(f64_ulp(m as nat) == 1);
        assert(f64_ulp(n as nat) == ulp) by (nonlinear_arith)
            requires
                f64_ulp(n as nat) == ulp * f64_ulp(m as nat),
                f64_ulp(m as nat) == 1,
        ;
        assert(f as nat == half_even_div(n as nat, ulp as nat) * (ulp as nat));
        assert(f as nat == nearest_f64(n as nat));
        let t = round_half_even(f * 100, 0x4000_0000);
        assert(t < 0x100_0000_0000_0000);
        push_fixed_point(&mut s, t as u64, 2);
        push_char(&mut s, 'G');
    } else if n >= 0x10_0000 {
        let t = round_half_even((n as u128) * 10, 0x10_0000);
        push_fixed_point(&mut s, t as u64, 1);
        push_char(&mut s, 'M');
    } else if n >= 0x400 {
        let t = round_half_even((n as u128) * 10, 0x400);
        push_fixed_point(&mut s, t as u64, 1);
        push_char(&mut s, 'K');
    } else {
        push_decimal(&mut s, n);
        push_char(&mut s, 'B');
    }
    assert(s@ =~= byte_size_text(n as nat));
    s
}

/// Whole seconds from `mtime` to `now` (`SystemTime::duration_since`,
/// zero when `mtime` lies in the future).
pub open spec fn age_seconds(now: i128, mtime: i128) -> nat {
    if now >= mtime {
        ((now - mtime) / 1_000_000_000) as nat
    } else {
        0
    }
}

/// The text `format_age` gives for an age of `secs` seconds: whole days,
/// hours, minutes or seconds, whichever is the largest unit that fits.
pub open spec fn age_text(secs: nat) -> Seq<char> {
    if secs >= 86_400 {
        decimal(secs / 86_400) + seq!['d']
    } else if secs >= 3_600 {
        decimal(secs / 3_600) + seq!['h']
    } else if secs >= 60 {
        decimal(secs / 60) + seq!['m']
    } else {
        decimal(secs) + seq!['s']
    }
}

/// Human-readable age of a file modified at `mtime`, seen at `now`.
pub fn format_age(now: i128, mtime: i128) -> (r: String)
    requires
        valid_instant(now),
        valid_instant(mtime),
    ensures
        r@ == age_text(age_seconds(now, mtime)),
{
    let secs: u64 = if now >= mtime {
        let d: i128 = (now - mtime) / 1_000_000_000;
        assert(d < 0x1_0000_0000_0000_0000);
        d as u64
    } else {
        0
    };
    let mut s = String::new();
    if secs >= 86_400 {
        push_decimal(&mut s, secs / 86_400);
        push_char(&mut s, 'd');
    } else if secs >= 3_600 {
        push_decimal(&mut s, secs / 3_600);
        push_char(&mut s, 'h');
    } else if secs >= 60 {
        push_decimal(&mut s, secs / 60);
        push_char(&mut s, 'm');
    } else {
        push_decimal(&mut s, secs);
        push_char(&mut s, 's');
    }
    assert(s@ =~= age_text(age_seconds(now, mtime)));
    s
}

} // verus!
