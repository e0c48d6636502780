use crate::collections::map::MapValueState;
use vstd::multiset::*;
use vstd::prelude::*;

verus! {

broadcast use {vstd::multiset::group_multiset_axioms, vstd::multiset::group_multiset_properties};

/// Smallest capacity of a non-empty table.
pub const MIN_CAPACITY: usize = 64;

/// Largest capacity a table may reach: far below `usize::MAX`, so that the
/// load-factor arithmetic cannot overflow.
pub open spec fn max_capacity() -> int {
    usize::MAX as int / 32
}

/// The capacity of a table of `capacity` slots holding `len` entries after it
/// made room for one more: doubled, and at least `MIN_CAPACITY`, once it is
/// fifteen sixteenths full; otherwise unchanged.
pub open spec fn capacity_for_insert(capacity: nat, len: nat) -> nat {
    if len >= capacity * 15 / 16 {
        if capacity * 2 > MIN_CAPACITY {
            capacity * 2
        } else {
            MIN_CAPACITY as nat
        }
    } else {
        capacity
    }
}

/// The capacity of a table of `capacity` slots left with `len` entries by a
/// removal: halved, but not below `MIN_CAPACITY`, once it is at most seven
/// sixteenths full; otherwise unchanged.
pub open spec fn capacity_after_remove(capacity: nat, len: nat) -> nat {
    if capacity > 0 && len <= capacity * 7 / 16 {
        if capacity / 2 > MIN_CAPACITY {
            capacity / 2
        } else {
            MIN_CAPACITY as nat
        }
    } else {
        capacity
    }
}

/// The slot a key's probe sequence starts at.
pub open spec fn home(key: u64, cap: nat) -> int {
    (key as int) % (cap as int)
}

/// The `d`-th slot of the probe sequence starting at `h` (wrapping around).
pub open spec fn probe(h: int, d: int, cap: int) -> int {
    if h + d < cap {
        h + d
    } else {
        h + d - cap
    }
}

/// How many steps the probe sequence starting at `h` takes to reach `p`.
pub open spec fn dist(h: int, p: int, cap: int) -> int {
    if p >= h {
        p - h
    } else {
        p + cap - h
    }
}

/// Whether slot `p` holds the entry `e`.
pub open spec fn slot_holds(
    states: Seq<MapValueState>,
    keys: Seq<u64>,
    values: Seq<u64>,
    p: int,
    e: (u64, u64),
) -> bool {
    states[p] == MapValueState::Valid && keys[p] == e.0 && values[p] == e.1
}

/// The entries held by the first `n` slots.
pub open spec fn slot_entries(
    states: Seq<MapValueState>,
    keys: Seq<u64>,
    values: Seq<u64>,
    n: int,
) -> Multiset<(u64, u64)>
    decreases n,
{
    if n <= 0 {
        Multiset::empty()
    } else {
        let m = slot_entries(states, keys, values, n - 1);
        if states[n - 1] == MapValueState::Valid {
            m.insert((keys[n - 1], values[n - 1]))
        } else {
            m
        }
    }
}

/// The multiplicity of an entry is the number of slots holding it: two
/// tables whose slots agree on holding `e` count `e` alike.
pub proof fn lemma_entries_pointwise(
    s1: Seq<MapValueState>,
    k1: Seq<u64>,
    v1: Seq<u64>,
    s2: Seq<MapValueState>,
    k2: Seq<u64>,
    v2: Seq<u64>,
    n: int,
    e: (u64, u64),
)
    requires
        0 <= n,
        n <= s1.len(),
        n <= k1.len(),
        n <= v1.len(),
        n <= s2.len(),
        n <= k2.len(),
        n <= v2.len(),
        forall|p: int| 0 <= p < n ==> slot_holds(s1, k1, v1, p, e) == slot_holds(s2, k2, v2, p, e),
    ensures
        slot_entries(s1, k1, v1, n).count(e) == slot_entries(s2, k2, v2, n).count(e),
    decreases n,
{
    if n > 0 {
        lemma_entries_pointwise(s1, k1, v1, s2, k2, v2, n - 1, e);
        let m1 = slot_entries(s1, k1, v1, n - 1);
        let m2 = slot_entries(s2, k2, v2, n - 1);
        let x1 = (k1[n - 1], v1[n - 1]);
        let x2 = (k2[n - 1], v2[n - 1]);
        assert(slot_holds(s1, k1, v1, n - 1, e) == (s1[n - 1] == MapValueState::Valid && x1 == e));
        assert(slot_holds(s2, k2, v2, n - 1, e) == (s2[n - 1] == MapValueState::Valid && x2 == e));
        assert(m1.insert(x1).count(e) == m1.count(e) + if x1 == e { 1nat } else { 0nat });
        assert(m2.insert(x2).count(e) == m2.count(e) + if x2 == e { 1nat } else { 0nat });
    }
}

/// An entry held by no slot is not counted.
pub proof fn lemma_entries_absent(
    s: Seq<MapValueState>,
    k: Seq<u64>,
    v: Seq<u64>,
    n: int,
    e: (u64, u64),
)
    requires
        0 <= n <= s.len(),
        n <= k.len(),
        n <= v.len(),
        forall|p: int| 0 <= p < n ==> !slot_holds(s, k, v, p, e),
    ensures
        slot_entries(s, k, v, n).count(e) == 0,
    decreases n,
{
    if n > 0 {
        lemma_entries_absent(s, k, v, n - 1, e);
        let m = slot_entries(s, k, v, n - 1);
        let x = (k[n - 1], v[n - 1]);
        assert(!slot_holds(s, k, v, n - 1, e));
        assert(m.insert(x).count(e) == m.count(e) + if x == e { 1nat } else { 0nat });
    }
}

/// An entry is counted exactly when some slot holds it.
pub proof fn lemma_entries_present(
    s: Seq<MapValueState>,
    k: Seq<u64>,
    v: Seq<u64>,
    n: int,
    e: (u64, u64),
)
    requires
        0 <= n <= s.len(),
        n <= k.len(),
        n <= v.len(),
    ensures
        slot_entries(s, k, v, n).count(e) > 0 <==> exists|p: int|
            0 <= p < n && slot_holds(s, k, v, p, e),
    decreases n,
{
    if n > 0 {
        lemma_entries_present(s, k, v, n - 1, e);
        if slot_holds(s, k, v, n - 1, e) {
            assert(slot_entries(s, k, v, n).count(e) > 0);
        } else if slot_entries(s, k, v, n).count(e) > 0 {
            assert(slot_entries(s, k, v, n - 1).count(e) > 0);
        }
    }
}

/// Changing one slot removes the entry it held and adds the one it holds now.
pub proof fn lemma_entries_update(
    s1: Seq<MapValueState>,
    k1: Seq<u64>,
    v1: Seq<u64>,
    s2: Seq<MapValueState>,
    k2: Seq<u64>,
    v2: Seq<u64>,
    p: int,
    n: int,
)
    requires
        0 <= p < n,
        n <= s1.len(),
        n <= k1.len(),
        n <= v1.len(),
        n <= s2.len(),
        n <= k2.len(),
        n <= v2.len(),
        forall|q: int| 0 <= q < n && q != p ==> s1[q] == s2[q] && k1[q] == k2[q] && v1[q] == v2[q],
    ensures
        ({
            let old_part = if s1[p] == MapValueState::Valid {
                Multiset::singleton((k1[p], v1[p]))
            } else {
                Multiset::empty()
            };
            let new_part = if s2[p] == MapValueState::Valid {
                Multiset::singleton((k2[p], v2[p]))
            } else {
                Multiset::empty()
            };
            slot_entries(s2, k2, v2, n).add(old_part) == slot_entries(s1, k1, v1, n).add(new_part)
        }),
    decreases n,
{
    let old_part = if s1[p] == MapValueState::Valid {
        Multiset::singleton((k1[p], v1[p]))
    } else {
        Multiset::empty()
    };
    let new_part = if s2[p] == MapValueState::Valid {
        Multiset::singleton((k2[p], v2[p]))
    } else {
        Multiset::empty()
    };
    if n - 1 == p {
        assert forall|e: (u64, u64)| 0 <= 0 implies #[trigger] slot_entries(s1, k1, v1, p).count(e)
            == slot_entries(s2, k2, v2, p).count(e) by {
            lemma_entries_pointwise(s1, k1, v1, s2, k2, v2, p, e);
        }
        assert(slot_entries(s1, k1, v1, p) =~= slot_entries(s2, k2, v2, p));
        assert(slot_entries(s2, k2, v2, n).add(old_part) =~= slot_entries(s1, k1, v1, n).add(
            new_part,
        ));
    } else {
        lemma_entries_update(s1, k1, v1, s2, k2, v2, p, n - 1);
        let a1 = slot_entries(s1, k1, v1, n - 1);
        let a2 = slot_entries(s2, k2, v2, n - 1);
        let x = (k1[n - 1], v1[n - 1]);
        assert(x == (k2[n - 1], v2[n - 1]));
        assert forall|e: (u64, u64)| #[trigger] slot_entries(s2, k2, v2, n).add(old_part).count(e)
            == slot_entries(s1, k1, v1, n).add(new_part).count(e) by {
            assert(a2.add(old_part).count(e) == a1.add(new_part).count(e));
            assert(a1.insert(x).count(e) == a1.count(e) + if x == e { 1nat } else { 0nat });
            assert(a2.insert(x).count(e) == a2.count(e) + if x == e { 1nat } else { 0nat });
        }
        assert(slot_entries(s2, k2, v2, n).add(old_part) =~= slot_entries(s1, k1, v1, n).add(
            new_part,
        ));
    }
}

/// Every entry counted takes a slot.
pub proof fn lemma_entries_len(s: Seq<MapValueState>, k: Seq<u64>, v: Seq<u64>, n: int)
    requires
        0 <= n <= s.len(),
        n <= k.len(),
        n <= v.len(),
    ensures
        slot_entries(s, k, v, n).len() <= n,
        (forall|p: int| 0 <= p < n ==> s[p] != MapValueState::Valid) ==> slot_entries(
            s,
            k,
            v,
            n,
        ).len() == 0,
        (forall|p: int| 0 <= p < n ==> s[p] == MapValueState::Valid) ==> slot_entries(
            s,
            k,
            v,
            n,
        ).len() == n,
    decreases n,
{
    if n > 0 {
        lemma_entries_len(s, k, v, n - 1);
    }
}

/// Slot `p` of a table of `cap` slots can be reached from its key's home
/// slot without crossing an empty slot.
pub open spec fn reachable_n(states: Seq<MapValueState>, keys: Seq<u64>, p: int, cap: int) -> bool {
    let h = home(keys[p], cap as nat);
    forall|d: int| 0 <= d < dist(h, p, cap) ==> #[trigger] states[probe(h, d, cap)] != MapValueState::Empty
}

/// Every valid slot can be reached from its key's home slot without
/// crossing an empty slot.
pub open spec fn reachable(states: Seq<MapValueState>, keys: Seq<u64>, p: int) -> bool {
    reachable_n(states, keys, p, states.len() as int)
}

/// The probing invariant of the whole table.
pub open spec fn probe_ok(states: Seq<MapValueState>, keys: Seq<u64>) -> bool {
    forall|p: int|
        0 <= p < states.len() && states[p] == MapValueState::Valid ==> #[trigger] reachable(
            states,
            keys,
            p,
        )
}

/// Whether some entry has key `key`.
pub open spec fn has_key(m: Multiset<(u64, u64)>, key: u64) -> bool {
    exists|v: u64| m.count((key, v)) > 0
}

/// The entries with key `key`.
pub open spec fn key_entries(m: Multiset<(u64, u64)>, key: u64) -> Multiset<(u64, u64)> {
    m.filter(|e: (u64, u64)| e.0 == key)
}

/// A scan of the probe sequence of `key` that stopped at an empty slot (or
/// went all the way round) has passed every slot holding that key.
pub proof fn lemma_scan_complete(states: Seq<MapValueState>, keys: Seq<u64>, key: u64, d: int, p: int)
    requires
        states.len() > 0,
        keys.len() == states.len(),
        probe_ok(states, keys),
        0 <= d <= states.len(),
        d < states.len() ==> states[probe(home(key, states.len()), d, states.len() as int)]
            == MapValueState::Empty,
        0 <= p < states.len(),
        states[p] == MapValueState::Valid,
        keys[p] == key,
    ensures
        dist(home(key, states.len()), p, states.len() as int) < d,
{
    let cap = states.len() as int;
    let h = home(key, states.len());
    assert(reachable(states, keys, p));
    if dist(h, p, cap) >= d && d < cap {
        assert(states[probe(h, d, cap)] != MapValueState::Empty);
    }
}

/// The states with every slot holding key `key` among the first `d` of the
/// probe sequence from `h` turned into a tombstone.
pub open spec fn marked(states: Seq<MapValueState>, keys: Seq<u64>, key: u64, h: int, d: int) -> Seq<
    MapValueState,
> {
    Seq::new(
        states.len(),
        |q: int|
            if dist(h, q, states.len() as int) < d && states[q] == MapValueState::Valid && keys[q]
                == key {
                MapValueState::Deleted
            } else {
                states[q]
            },
    )
}

/// One more step of the scan marks at most the slot it visits.
pub proof fn lemma_marked_step(states: Seq<MapValueState>, keys: Seq<u64>, key: u64, h: int, d: int)
    requires
        states.len() > 0,
        keys.len() == states.len(),
        0 <= h < states.len(),
        0 <= d < states.len(),
    ensures
        ({
            let p = probe(h, d, states.len() as int);
            marked(states, keys, key, h, d + 1) == if states[p] == MapValueState::Valid && keys[p]
                == key {
                marked(states, keys, key, h, d).update(p, MapValueState::Deleted)
            } else {
                marked(states, keys, key, h, d)
            }
        }),
{
    let p = probe(h, d, states.len() as int);
    if states[p] == MapValueState::Valid && keys[p] == key {
        assert(marked(states, keys, key, h, d + 1) =~= marked(states, keys, key, h, d).update(
            p,
            MapValueState::Deleted,
        ));
    } else {
        assert(marked(states, keys, key, h, d + 1) =~= marked(states, keys, key, h, d));
    }
}

/// Turning a valid slot into a tombstone removes exactly its entry.
pub proof fn lemma_entries_mark(states: Seq<MapValueState>, keys: Seq<u64>, values: Seq<u64>, p: int)
    requires
        0 <= p < states.len(),
        keys.len() == states.len(),
        values.len() == states.len(),
        states[p] == MapValueState::Valid,
    ensures
        slot_entries(states.update(p, MapValueState::Deleted), keys, values, states.len() as int).insert(
            (keys[p], values[p]),
        ) == slot_entries(states, keys, values, states.len() as int),
{
    let s2 = states.update(p, MapValueState::Deleted);
    lemma_entries_update(states, keys, values, s2, keys, values, p, states.len() as int);
    assert(slot_entries(s2, keys, values, states.len() as int).add(
        Multiset::singleton((keys[p], values[p])),
    ) =~= slot_entries(states, keys, values, states.len() as int).add(Multiset::empty()));
}

/// Once the scan has passed every slot of `key`, nothing with that key is
/// left unmarked.
pub proof fn lemma_marked_complete(
    states: Seq<MapValueState>,
    keys: Seq<u64>,
    values: Seq<u64>,
    key: u64,
    d: int,
    e: (u64, u64),
)
    requires
        states.len() > 0,
        keys.len() == states.len(),
        values.len() == states.len(),
        probe_ok(states, keys),
        0 <= d <= states.len(),
        d < states.len() ==> states[probe(home(key, states.len()), d, states.len() as int)]
            == MapValueState::Empty,
        e.0 == key,
    ensures
        slot_entries(
            marked(states, keys, key, home(key, states.len()), d),
            keys,
            values,
            states.len() as int,
        ).count(e) == 0,
{
    let h = home(key, states.len());
    let m = marked(states, keys, key, h, d);
    assert forall|q: int| 0 <= q < states.len() implies !slot_holds(m, keys, values, q, e) by {
        if states[q] == MapValueState::Valid && keys[q] == key {
            lemma_scan_complete(states, keys, key, d, q);
        }
    }
    lemma_entries_absent(m, keys, values, states.len() as int, e);
}

/// Tables that agree on their first `n` slots hold the same entries there.
pub proof fn lemma_entries_prefix(
    s1: Seq<MapValueState>,
    k1: Seq<u64>,
    v1: Seq<u64>,
    s2: Seq<MapValueState>,
    k2: Seq<u64>,
    v2: Seq<u64>,
    n: int,
)
    requires
        0 <= n,
        n <= s1.len(),
        n <= k1.len(),
        n <= v1.len(),
        n <= s2.len(),
        n <= k2.len(),
        n <= v2.len(),
        forall|p: int| 0 <= p < n ==> s1[p] == s2[p] && k1[p] == k2[p] && v1[p] == v2[p],
    ensures
        slot_entries(s1, k1, v1, n) == slot_entries(s2, k2, v2, n),
    decreases n,
{
    if n > 0 {
        lemma_entries_prefix(s1, k1, v1, s2, k2, v2, n - 1);
    }
}

/// Slots past `n` that hold nothing add no entries.
pub proof fn lemma_entries_tail(s: Seq<MapValueState>, k: Seq<u64>, v: Seq<u64>, n: int, m: int)
    requires
        0 <= n <= m,
        m <= s.len(),
        m <= k.len(),
        m <= v.len(),
        forall|p: int| n <= p < m ==> s[p] != MapValueState::Valid,
    ensures
        slot_entries(s, k, v, m) == slot_entries(s, k, v, n),
    decreases m - n,
{
    if m > n {
        lemma_entries_tail(s, k, v, n, m - 1);
    }
}

/// More slots hold at least as many entries.
pub proof fn lemma_entries_monotone(s: Seq<MapValueState>, k: Seq<u64>, v: Seq<u64>, n: int, m: int)
    requires
        0 <= n <= m,
        m <= s.len(),
        m <= k.len(),
        m <= v.len(),
    ensures
        slot_entries(s, k, v, n).len() <= slot_entries(s, k, v, m).len(),
    decreases m - n,
{
    if m > n {
        lemma_entries_monotone(s, k, v, n, m - 1);
    }
}

/// Exchanging the contents of two slots keeps the entries.
pub proof fn lemma_entries_swap(
    s: Seq<MapValueState>,
    k: Seq<u64>,
    v: Seq<u64>,
    i: int,
    j: int,
)
    requires
        0 <= i < s.len(),
        0 <= j < s.len(),
        k.len() == s.len(),
        v.len() == s.len(),
    ensures
        slot_entries(
            s.update(i, s[j]).update(j, s[i]),
            k.update(i, k[j]).update(j, k[i]),
            v.update(i, v[j]).update(j, v[i]),
            s.len() as int,
        ) == slot_entries(s, k, v, s.len() as int),
{
    let n = s.len() as int;
    if i == j {
        assert(s.update(i, s[j]).update(j, s[i]) =~= s);
        assert(k.update(i, k[j]).update(j, k[i]) =~= k);
        assert(v.update(i, v[j]).update(j, v[i]) =~= v);
    } else {
        let s1 = s.update(i, s[j]);
        let k1 = k.update(i, k[j]);
        let v1 = v.update(i, v[j]);
        let s2 = s1.update(j, s[i]);
        let k2 = k1.update(j, k[i]);
        let v2 = v1.update(j, v[i]);
        let part_i = if s[i] == MapValueState::Valid {
            Multiset::singleton((k[i], v[i]))
        } else {
            Multiset::empty()
        };
        let part_j = if s[j] == MapValueState::Valid {
            Multiset::singleton((k[j], v[j]))
        } else {
            Multiset::empty()
        };
        lemma_entries_update(s, k, v, s1, k1, v1, i, n);
        lemma_entries_update(s1, k1, v1, s2, k2, v2, j, n);
        let e0 = slot_entries(s, k, v, n);
        let e1 = slot_entries(s1, k1, v1, n);
        let e2 = slot_entries(s2, k2, v2, n);
        assert(e1.add(part_i) == e0.add(part_j));
        assert(e2.add(part_j) == e1.add(part_i));
        assert forall|e: (u64, u64)| #[trigger] e2.count(e) == e0.count(e) by {
            assert(e1.add(part_i).count(e) == e0.add(part_j).count(e));
            assert(e2.add(part_j).count(e) == e1.add(part_i).count(e));
        }
        assert(e2 =~= e0);
    }
}

/// Number of claimed (`false`) marks among the first `n`.
pub open spec fn count_claimed(marks: Seq<bool>, n: int) -> int
    decreases n,
{
    if n <= 0 {
        0
    } else {
        count_claimed(marks, n - 1) + if marks[n - 1] {
            0int
        } else {
            1int
        }
    }
}

/// Claiming one more slot counts one more.
pub proof fn lemma_claim(marks: Seq<bool>, p: int, n: int)
    requires
        0 <= p < n <= marks.len(),
        marks[p],
    ensures
        count_claimed(marks.update(p, false), n) == count_claimed(marks, n) + 1,
    decreases n,
{
    if n - 1 > p {
        lemma_claim(marks, p, n - 1);
    } else {
        lemma_claim_prefix(marks, marks.update(p, false), p);
    }
}

proof fn lemma_claim_prefix(a: Seq<bool>, b: Seq<bool>, n: int)
    requires
        0 <= n <= a.len(),
        n <= b.len(),
        forall|q: int| 0 <= q < n ==> a[q] == b[q],
    ensures
        count_claimed(a, n) == count_claimed(b, n),
    decreases n,
{
    if n > 0 {
        lemma_claim_prefix(a, b, n - 1);
    }
}

/// Counts stay between zero and the number of marks.
pub proof fn lemma_claimed_bounds(marks: Seq<bool>, n: int)
    requires
        0 <= n <= marks.len(),
    ensures
        0 <= count_claimed(marks, n) <= n,
        (forall|q: int| 0 <= q < n ==> !marks[q]) ==> count_claimed(marks, n) == n,
        (forall|q: int| 0 <= q < n ==> marks[q]) ==> count_claimed(marks, n) == 0,
    decreases n,
{
    if n > 0 {
        lemma_claimed_bounds(marks, n - 1);
    }
}

/// Claimed slots hold entries, so there are no more claims than entries.
pub proof fn lemma_claimed_le_entries(
    marks: Seq<bool>,
    s: Seq<MapValueState>,
    k: Seq<u64>,
    v: Seq<u64>,
    n: int,
)
    requires
        0 <= n <= marks.len(),
        n <= s.len(),
        n <= k.len(),
        n <= v.len(),
        forall|q: int| 0 <= q < n && !marks[q] ==> s[q] == MapValueState::Valid,
    ensures
        count_claimed(marks, n) <= slot_entries(s, k, v, n).len(),
    decreases n,
{
    if n > 0 {
        lemma_claimed_le_entries(marks, s, k, v, n - 1);
    }
}

/// Tables whose slots agree everywhere on which entry they hold count alike.
pub proof fn lemma_entries_pointwise_all(
    s1: Seq<MapValueState>,
    k1: Seq<u64>,
    v1: Seq<u64>,
    s2: Seq<MapValueState>,
    k2: Seq<u64>,
    v2: Seq<u64>,
    n: int,
)
    requires
        0 <= n,
        n <= s1.len(),
        n <= k1.len(),
        n <= v1.len(),
        n <= s2.len(),
        n <= k2.len(),
        n <= v2.len(),
        forall|p: int, e: (u64, u64)|
            0 <= p < n ==> slot_holds(s1, k1, v1, p, e) == slot_holds(s2, k2, v2, p, e),
    ensures
        slot_entries(s1, k1, v1, n) == slot_entries(s2, k2, v2, n),
{
    assert forall|e: (u64, u64)| #[trigger] slot_entries(s1, k1, v1, n).count(e) == slot_entries(
        s2,
        k2,
        v2,
        n,
    ).count(e) by {
        lemma_entries_pointwise(s1, k1, v1, s2, k2, v2, n, e);
    }
    assert(slot_entries(s1, k1, v1, n) =~= slot_entries(s2, k2, v2, n));
}

/// Load-factor arithmetic of the table.
pub proof fn lemma_load(cap: int, len: int)
    by (nonlinear_arith)
    requires
        cap >= 64,
        len >= 0,
    ensures
        len < cap * 15 / 16 ==> len + 1 < cap,
        len >= cap * 15 / 16 && len * 4 < max_capacity() ==> cap * 2 <= max_capacity(),
        len < cap ==> len < (cap * 2) * 15 / 16,
        len <= cap * 7 / 16 ==> len < cap / 2 || len < 64,
        cap * 15 / 16 <= cap,
        cap * 7 / 16 <= cap,
{
}

/// A multimap from `u64` keys to `u64` values held in an open addressing
/// table with linear probing: each slot is empty, deleted (a tombstone) or
/// valid, and a key is looked up from its home slot `key % capacity` until
/// an empty slot.
pub struct MultiMapImpl {
    states: Vec<MapValueState>,
    keys: Vec<u64>,
    values: Vec<u64>,
    len: usize,
}

impl View for MultiMapImpl {
    type V = Multiset<(u64, u64)>;

    closed spec fn view(&self) -> Multiset<(u64, u64)> {
        slot_entries(self.states@, self.keys@, self.values@, self.states@.len() as int)
    }
}

impl MultiMapImpl {
    /// Number of slots.
    pub closed spec fn spec_capacity(&self) -> nat {
        self.states@.len()
    }

    /// Slot `p` of the table holds the entry `e`.
    pub closed spec fn spec_slot_holds(&self, p: int, e: (u64, u64)) -> bool {
        0 <= p < self.states@.len() && slot_holds(self.states@, self.keys@, self.values@, p, e)
    }

    /// How many steps the probe sequence of `key` takes to reach slot `p`.
    pub closed spec fn spec_probe_distance(&self, key: u64, p: int) -> int {
        dist(home(key, self.states@.len()), p, self.states@.len() as int)
    }

    /// The table is consistent: the parts have the same length, the length
    /// counts the valid slots, there is always a free slot, and every valid
    /// slot is reachable from its key's home slot.
    pub closed spec fn wf(&self) -> bool {
        let cap = self.states@.len();
        &&& self.keys@.len() == cap
        &&& self.values@.len() == cap
        &&& (cap == 0 || (MIN_CAPACITY <= cap <= max_capacity()))
        &&& self.len == self@.len()
        &&& (cap > 0 ==> self.len < cap)
        &&& probe_ok(self.states@, self.keys@)
    }

    /// A table that holds an entry has at least `MIN_CAPACITY` slots, and
    /// always more slots than entries.
    pub proof fn lemma_nonempty_has_room(&self)
        requires
            self.wf(),
        ensures
            self@.len() > 0 ==> self.spec_capacity() >= MIN_CAPACITY,
            self@.len() > 0 ==> self@.len() < self.spec_capacity(),
    {
        if self.states@.len() == 0 {
            assert(self@ =~= Multiset::<(u64, u64)>::empty());
        }
    }

    /// An empty map with no slots.
    pub fn new() -> (result: Self)
        ensures
            result.wf(),
            result@ == Multiset::<(u64, u64)>::empty(),
            result.spec_capacity() == 0,
    {
        let result = Self { states: Vec::new(), keys: Vec::new(), values: Vec::new(), len: 0 };
        assert(result@ =~= Multiset::<(u64, u64)>::empty());
        result
    }

    /// Number of slots.
    pub fn capacity(&self) -> (result: u64)
        ensures
            result == self.spec_capacity(),
    {
        self.states.len() as u64
    }

    /// Number of entries.
    pub fn len(&self) -> (result: u64)
        requires
            self.wf(),
        ensures
            result == self@.len(),
    {
        self.len as u64
    }

    pub fn is_empty(&self) -> (result: bool)
        requires
            self.wf(),
        ensures
            result == (self@.len() == 0),
    {
        self.len == 0
    }

    fn next_pos(&self, pos: usize) -> (result: usize)
        requires
            pos < self.states@.len(),
        ensures
            result == probe(pos as int, 1, self.states@.len() as int),
    {
        if pos == self.states.len() - 1 {
            0
        } else {
            pos + 1
        }
    }

    fn home_pos(&self, key: u64) -> (result: usize)
        requires
            self.states@.len() > 0,
        ensures
            result == home(key, self.states@.len()),
            result < self.states@.len(),
    {
        (key % (self.states.len() as u64)) as usize
    }

    /// Whether some entry has key `key`.
    pub fn contains(&self, key: u64) -> (result: bool)
        requires
            self.wf(),
        ensures
            result == has_key(self@, key),
    {
        let cap = self.states.len();
        if cap == 0 {
            assert(self@ =~= Multiset::<(u64, u64)>::empty());
            return false;
        }
        let h = self.home_pos(key);
        let mut pos = h;
        let mut d: usize = 0;
        while d < cap
            invariant
                self.wf(),
                cap == self.states@.len(),
                h == home(key, cap as nat),
                d <= cap,
                pos == probe(h as int, d as int, cap as int),
                forall|q: int|
                    0 <= q < cap && dist(h as int, q, cap as int) < d ==> !(self.states@[q]
                        == MapValueState::Valid && self.keys@[q] == key),
            decreases cap - d,
        {
            match self.states[pos] {
                MapValueState::Empty => {
                    proof {
                        self.lemma_absent_after_scan(key, d as int);
                    }
                    return false;
                },
                MapValueState::Valid => {
                    if self.keys[pos] == key {
                        proof {
                            let v = self.values@[pos as int];
                            lemma_entries_present(
                                self.states@,
                                self.keys@,
                                self.values@,
                                cap as int,
                                (key, v),
                            );
                            assert(slot_holds(
                                self.states@,
                                self.keys@,
                                self.values@,
                                pos as int,
                                (key, v),
                            ));
                            assert(self@.count((key, v)) > 0);
                        }
                        return true;
                    }
                },
                MapValueState::Deleted => {},
            }
            pos = self.next_pos(pos);
            d += 1;
        }
        proof {
            self.lemma_absent_after_scan(key, d as int);
        }
        false
    }

    /// After a scan that passed no slot with key `key` and stopped at an
    /// empty slot (or went round), no entry has that key.
    proof fn lemma_absent_after_scan(&self, key: u64, d: int)
        requires
            self.wf(),
            self.states@.len() > 0,
            0 <= d <= self.states@.len(),
            d < self.states@.len() ==> self.states@[probe(
                home(key, self.states@.len()),
                d,
                self.states@.len() as int,
            )] == MapValueState::Empty,
            forall|q: int|
                0 <= q < self.states@.len() && dist(
                    home(key, self.states@.len()),
                    q,
                    self.states@.len() as int,
                ) < d ==> !(self.states@[q] == MapValueState::Valid && self.keys@[q] == key),
        ensures
            !has_key(self@, key),
    {
        let cap = self.states@.len() as int;
        assert forall|v: u64| #[trigger] self@.count((key, v)) == 0 by {
            assert forall|q: int| 0 <= q < cap implies !slot_holds(
                self.states@,
                self.keys@,
                self.values@,
                q,
                (key, v),
            ) by {
                if self.states@[q] == MapValueState::Valid && self.keys@[q] == key {
                    lemma_scan_complete(self.states@, self.keys@, key, d, q);
                }
            }
            lemma_entries_absent(self.states@, self.keys@, self.values@, cap, (key, v));
        }
    }
    /// Whether some entry is `(key, value)`.
    pub fn contains_value(&self, key: u64, value: u64) -> (result: bool)
        requires
            self.wf(),
        ensures
            result == (self@.count((key, value)) > 0),
    {
        let cap = self.states.len();
        if cap == 0 {
            assert(self@ =~= Multiset::<(u64, u64)>::empty());
            return false;
        }
        let h = self.home_pos(key);
        let mut pos = h;
        let mut d: usize = 0;
        while d < cap
            invariant
                self.wf(),
                cap == self.states@.len(),
                h == home(key, cap as nat),
                d <= cap,
                pos == probe(h as int, d as int, cap as int),
                forall|q: int|
                    0 <= q < cap && dist(h as int, q, cap as int) < d ==> !slot_holds(
                        self.states@,
                        self.keys@,
                        self.values@,
                        q,
                        (key, value),
                    ),
            decreases cap - d,
        {
            match self.states[pos] {
                MapValueState::Empty => {
                    proof {
                        self.lemma_entry_absent_after_scan(key, value, d as int);
                    }
                    return false;
                },
                MapValueState::Valid => {
                    if self.keys[pos] == key && self.values[pos] == value {
                        proof {
                            lemma_entries_present(
                                self.states@,
                                self.keys@,
                                self.values@,
                                cap as int,
                                (key, value),
                            );
                            assert(slot_holds(
                                self.states@,
                                self.keys@,
                                self.values@,
                                pos as int,
                                (key, value),
                            ));
                        }
                        return true;
                    }
                },
                MapValueState::Deleted => {},
            }
            pos = self.next_pos(pos);
            d += 1;
        }
        proof {
            self.lemma_entry_absent_after_scan(key, value, d as int);
        }
        false
    }

    proof fn lemma_entry_absent_after_scan(&self, key: u64, value: u64, d: int)
        requires
            self.wf(),
            self.states@.len() > 0,
            0 <= d <= self.states@.len(),
            d < self.states@.len() ==> self.states@[probe(
                home(key, self.states@.len()),
                d,
                self.states@.len() as int,
            )] == MapValueState::Empty,
            forall|q: int|
                0 <= q < self.states@.len() && dist(
                    home(key, self.states@.len()),
                    q,
                    self.states@.len() as int,
                ) < d ==> !slot_holds(self.states@, self.keys@, self.values@, q, (key, value)),
        ensures
            self@.count((key, value)) == 0,
    {
        let cap = self.states@.len() as int;
        assert forall|q: int| 0 <= q < cap implies !slot_holds(
            self.states@,
            self.keys@,
            self.values@,
            q,
            (key, value),
        ) by {
            if self.states@[q] == MapValueState::Valid && self.keys@[q] == key {
                lemma_scan_complete(self.states@, self.keys@, key, d, q);
            }
        }
        lemma_entries_absent(self.states@, self.keys@, self.values@, cap, (key, value));
    }

    /// The value of the first entry with key `key` met when probing from
    /// the key's home slot, or `None` when no entry has that key.
    pub fn value(&self, key: u64) -> (result: Option<u64>)
        requires
            self.wf(),
        ensures
            result is None <==> !has_key(self@, key),
            result matches Some(v) ==> self@.count((key, v)) > 0,
    {
        let cap = self.states.len();
        if cap == 0 {
            assert(self@ =~= Multiset::<(u64, u64)>::empty());
            return None;
        }
        let h = self.home_pos(key);
        let mut pos = h;
        let mut d: usize = 0;
        while d < cap
            invariant
                self.wf(),
                cap == self.states@.len(),
                h == home(key, cap as nat),
                d <= cap,
                pos == probe(h as int, d as int, cap as int),
                forall|q: int|
                    0 <= q < cap && dist(h as int, q, cap as int) < d ==> !(self.states@[q]
                        == MapValueState::Valid && self.keys@[q] == key),
            decreases cap - d,
        {
            match self.states[pos] {
                MapValueState::Empty => {
                    proof {
                        self.lemma_absent_after_scan(key, d as int);
                    }
                    return None;
                },
                MapValueState::Valid => {
                    if self.keys[pos] == key {
                        let v = self.values[pos];
                        proof {
                            lemma_entries_present(
                                self.states@,
                                self.keys@,
                                self.values@,
                                cap as int,
                                (key, v),
                            );
                            assert(slot_holds(
                                self.states@,
                                self.keys@,
                                self.values@,
                                pos as int,
                                (key, v),
                            ));
                        }
                        return Some(v);
                    }
                },
                MapValueState::Deleted => {},
            }
            pos = self.next_pos(pos);
            d += 1;
        }
        proof {
            self.lemma_absent_after_scan(key, d as int);
        }
        None
    }

    /// The entries with key `key`, in the order of the key's probe sequence.
    pub fn iter_key(&self, key: u64) -> (result: Vec<(u64, u64)>)
        requires
            self.wf(),
        ensures
            result@.to_multiset() == key_entries(self@, key),
    {
        let ghost full = self@;
        let mut result: Vec<(u64, u64)> = Vec::new();
        let cap = self.states.len();
        if cap == 0 {
            proof {
                broadcast use vstd::seq_lib::group_to_multiset_ensures;
                assert(self@ =~= Multiset::<(u64, u64)>::empty());
                assert(result@.to_multiset() =~= key_entries(self@, key));
            }
            return result;
        }
        let h = self.home_pos(key);
        let mut pos = h;
        let mut d: usize = 0;
        let ghost mut rest = self.states@;
        proof {
            broadcast use vstd::seq_lib::group_to_multiset_ensures;

            assert(rest =~= marked(self.states@, self.keys@, key, h as int, 0));
            assert(result@.to_multiset().len() == 0);
        }
        while d < cap
            invariant
                self.wf(),
                full == self@,
                cap == self.states@.len(),
                h == home(key, cap as nat),
                d <= cap,
                pos == probe(h as int, d as int, cap as int),
                rest == marked(self.states@, self.keys@, key, h as int, d as int),
                forall|e: (u64, u64)|
                    e.0 == key ==> #[trigger] result@.to_multiset().count(e) + slot_entries(
                        rest,
                        self.keys@,
                        self.values@,
                        cap as int,
                    ).count(e) == full.count(e),
                forall|e: (u64, u64)| e.0 != key ==> #[trigger] result@.to_multiset().count(e) == 0,
            ensures
                d < cap ==> self.states@[pos as int] == MapValueState::Empty,
            decreases cap - d,
        {
            broadcast use vstd::seq_lib::group_to_multiset_ensures;

            let state = self.states[pos];
            if state == MapValueState::Empty {
                break;
            }
            proof {
                lemma_marked_step(self.states@, self.keys@, key, h as int, d as int);
            }
            if state == MapValueState::Valid && self.keys[pos] == key {
                let entry = (self.keys[pos], self.values[pos]);
                proof {
                    assert(rest[pos as int] == MapValueState::Valid);
                    lemma_entries_mark(rest, self.keys@, self.values@, pos as int);
                    rest = rest.update(pos as int, MapValueState::Deleted);
                }
                result.push(entry);
            }
            pos = self.next_pos(pos);
            d += 1;
        }
        proof {
            broadcast use vstd::seq_lib::group_to_multiset_ensures;

            assert forall|e: (u64, u64)| #[trigger] result@.to_multiset().count(e) == key_entries(
                self@,
                key,
            ).count(e) by {
                if e.0 == key {
                    lemma_marked_complete(self.states@, self.keys@, self.values@, key, d as int, e);
                }
            }
            assert(result@.to_multiset() =~= key_entries(self@, key));
        }
        result
    }
    /// The values of the entries with key `key`, in the order of the key's
    /// probe sequence.
    pub fn values(&self, key: u64) -> (result: Vec<u64>)
        requires
            self.wf(),
        ensures
            forall|v: u64| #[trigger] result@.to_multiset().count(v) == self@.count((key, v)),
    {
        let ghost full = self@;
        let mut result: Vec<u64> = Vec::new();
        let cap = self.states.len();
        if cap == 0 {
            proof {
                broadcast use vstd::seq_lib::group_to_multiset_ensures;

                assert(self@ =~= Multiset::<(u64, u64)>::empty());
                assert(result@.to_multiset().len() == 0);
            }
            return result;
        }
        let h = self.home_pos(key);
        let mut pos = h;
        let mut d: usize = 0;
        let ghost mut rest = self.states@;
        proof {
            broadcast use vstd::seq_lib::group_to_multiset_ensures;

            assert(rest =~= marked(self.states@, self.keys@, key, h as int, 0));
            assert(result@.to_multiset().len() == 0);
        }
        while d < cap
            invariant
                self.wf(),
                full == self@,
                cap == self.states@.len(),
                h == home(key, cap as nat),
                d <= cap,
                pos == probe(h as int, d as int, cap as int),
                rest == marked(self.states@, self.keys@, key, h as int, d as int),
                forall|v: u64|
                    #[trigger] result@.to_multiset().count(v) + slot_entries(
                        rest,
                        self.keys@,
                        self.values@,
                        cap as int,
                    ).count((key, v)) == full.count((key, v)),
            ensures
                d < cap ==> self.states@[pos as int] == MapValueState::Empty,
            decreases cap - d,
        {
            broadcast use vstd::seq_lib::group_to_multiset_ensures;

            let state = self.states[pos];
            if state == MapValueState::Empty {
                break;
            }
            proof {
                lemma_marked_step(self.states@, self.keys@, key, h as int, d as int);
            }
            if state == MapValueState::Valid && self.keys[pos] == key {
                let v = self.values[pos];
                proof {
                    lemma_entries_mark(rest, self.keys@, self.values@, pos as int);
                    rest = rest.update(pos as int, MapValueState::Deleted);
                }
                result.push(v);
            }
            pos = self.next_pos(pos);
            d += 1;
        }
        proof {
            assert forall|v: u64| #[trigger] result@.to_multiset().count(v) == self@.count(
                (key, v),
            ) by {
                lemma_marked_complete(self.states@, self.keys@, self.values@, key, d as int, (key, v));
            }
        }
        result
    }

    /// Number of entries with key `key`.
    pub fn values_count(&self, key: u64) -> (result: u64)
        requires
            self.wf(),
        ensures
            result == key_entries(self@, key).len(),
    {
        let ghost full = self@;
        let ghost mut seen: Seq<(u64, u64)> = Seq::empty();
        let mut count: u64 = 0;
        let cap = self.states.len();
        if cap == 0 {
            proof {
                assert(self@ =~= Multiset::<(u64, u64)>::empty());
                assert(key_entries(self@, key) =~= Multiset::<(u64, u64)>::empty());
            }
            return 0;
        }
        let h = self.home_pos(key);
        let mut pos = h;
        let mut d: usize = 0;
        let ghost mut rest = self.states@;
        proof {
            broadcast use vstd::seq_lib::group_to_multiset_ensures;

            assert(rest =~= marked(self.states@, self.keys@, key, h as int, 0));
            assert(seen.to_multiset().len() == 0);
        }
        while d < cap
            invariant
                self.wf(),
                full == self@,
                cap == self.states@.len(),
                h == home(key, cap as nat),
                d <= cap,
                count as int == seen.len() <= d,
                pos == probe(h as int, d as int, cap as int),
                rest == marked(self.states@, self.keys@, key, h as int, d as int),
                forall|e: (u64, u64)|
                    e.0 == key ==> #[trigger] seen.to_multiset().count(e) + slot_entries(
                        rest,
                        self.keys@,
                        self.values@,
                        cap as int,
                    ).count(e) == full.count(e),
                forall|e: (u64, u64)| e.0 != key ==> #[trigger] seen.to_multiset().count(e) == 0,
            ensures
                d < cap ==> self.states@[pos as int] == MapValueState::Empty,
            decreases cap - d,
        {
            broadcast use vstd::seq_lib::group_to_multiset_ensures;

            let state = self.states[pos];
            if state == MapValueState::Empty {
                break;
            }
            proof {
                lemma_marked_step(self.states@, self.keys@, key, h as int, d as int);
            }
            if state == MapValueState::Valid && self.keys[pos] == key {
                proof {
                    lemma_entries_mark(rest, self.keys@, self.values@, pos as int);
                    rest = rest.update(pos as int, MapValueState::Deleted);
                    seen = seen.push((self.keys@[pos as int], self.values@[pos as int]));
                }
                count += 1;
            }
            pos = self.next_pos(pos);
            d += 1;
        }
        proof {
            broadcast use vstd::seq_lib::group_to_multiset_ensures;

            assert forall|e: (u64, u64)| #[trigger] seen.to_multiset().count(e) == key_entries(
                self@,
                key,
            ).count(e) by {
                if e.0 == key {
                    lemma_marked_complete(self.states@, self.keys@, self.values@, key, d as int, e);
                }
            }
            assert(seen.to_multiset() =~= key_entries(self@, key));
        }
        count
    }
    /// Moves every entry of the first `current_capacity` slots to the first
    /// free slot of its probe sequence in a table of `new_capacity` slots.
    /// Slots are processed in order; an entry moved ahead swaps places with
    /// the slot it lands on, which is then processed in turn, and slots
    /// already holding a moved entry are passed over. Tombstones inside the
    /// new table become empty.
    #[verifier::loop_isolation(false)]
    #[verifier::rlimit(50)]
    fn rehash_values(&mut self, current_capacity: usize, new_capacity: usize)
        requires
            old(self).keys@.len() == old(self).states@.len(),
            old(self).values@.len() == old(self).states@.len(),
            old(self).states@.len() >= current_capacity,
            old(self).states@.len() >= new_capacity,
            old(self).states@.len() == current_capacity || old(self).states@.len()
                == new_capacity,
            0 < new_capacity,
            old(self)@.len() < new_capacity,
            forall|q: int|
                current_capacity <= q < old(self).states@.len() ==> old(self).states@[q]
                    == MapValueState::Empty,
        ensures
            final(self).states@.len() == old(self).states@.len(),
            final(self).keys@.len() == old(self).states@.len(),
            final(self).values@.len() == old(self).states@.len(),
            final(self)@ == old(self)@,
            final(self).len == old(self).len,
            forall|q: int|
                new_capacity <= q < final(self).states@.len() ==> final(self).states@[q]
                    != MapValueState::Valid,
            forall|p: int|
                0 <= p < new_capacity && final(self).states@[p] == MapValueState::Valid
                    ==> #[trigger] reachable_n(
                    final(self).states@,
                    final(self).keys@,
                    p,
                    new_capacity as int,
                ),
    {
        let ghost m = self@;
        let ghost n_slots = self.states@.len() as int;
        let ghost newc = new_capacity as int;
        let mut i: usize = 0;
        let mut empty_list: Vec<bool> = vec![true; new_capacity];
        let mut placed: usize = 0;
        proof {
            lemma_claimed_bounds(empty_list@, newc);
        }
        while i != current_capacity
            invariant
                self.states@.len() == n_slots,
                self.keys@.len() == n_slots,
                self.values@.len() == n_slots,
                empty_list@.len() == newc,
                i <= current_capacity,
                self@ == m,
                self.len == old(self).len,
                placed as int == count_claimed(empty_list@, newc),
                forall|p: int|
                    0 <= p < newc && !empty_list@[p] ==> self.states@[p] == MapValueState::Valid,
                forall|p: int|
                    0 <= p < newc && !empty_list@[p] ==> #[trigger] self.keys@[p] == self.keys@[p]
                        && forall|d: int|
                        0 <= d < dist(home(self.keys@[p], newc as nat), p, newc) ==> !(
                        #[trigger] empty_list@[probe(home(self.keys@[p], newc as nat), d, newc)]),
                forall|q: int|
                    0 <= q < i && q < newc && empty_list@[q] ==> self.states@[q]
                        == MapValueState::Empty,
                forall|q: int|
                    0 <= q < i && newc <= q < n_slots ==> self.states@[q] != MapValueState::Valid,
                forall|q: int|
                    current_capacity <= q < n_slots ==> (q < newc && !empty_list@[q])
                        || self.states@[q] == MapValueState::Empty,
            decreases current_capacity - i, new_capacity - placed,
        {
            if i < new_capacity && !empty_list[i] {
                i += 1;
            } else {
                let state = self.states[i];
                if state == MapValueState::Empty {
                    i += 1;
                } else if state == MapValueState::Deleted {
                    if i < new_capacity {
                        let ghost before = self.states@;
                        self.states[i] = MapValueState::Empty;
                        proof {
                            lemma_entries_pointwise_all(
                                before,
                                self.keys@,
                                self.values@,
                                self.states@,
                                self.keys@,
                                self.values@,
                                n_slots,
                            );
                        }
                    }
                    i += 1;
                } else {
                    let key = self.keys[i];
                    let h = (key % (new_capacity as u64)) as usize;
                    let mut pos = h;
                    let mut d: usize = 0;
                    while d < new_capacity
                        invariant
                            d <= new_capacity,
                            pos == probe(h as int, d as int, newc),
                            forall|d2: int| 0 <= d2 < d ==> !empty_list@[probe(h as int, d2, newc)],
                        decreases new_capacity - d,
                    {
                        if empty_list[pos] {
                            break;
                        }
                        pos = if pos == new_capacity - 1 {
                            0
                        } else {
                            pos + 1
                        };
                        d += 1;
                    }
                    proof {
                        if d == new_capacity {
                            assert forall|q: int| 0 <= q < newc implies !empty_list@[q] by {
                                assert(probe(h as int, dist(h as int, q, newc), newc) == q);
                            }
                            lemma_claimed_bounds(empty_list@, newc);
                            lemma_claimed_le_entries(
                                empty_list@,
                                self.states@,
                                self.keys@,
                                self.values@,
                                newc,
                            );
                            lemma_entries_monotone(
                                self.states@,
                                self.keys@,
                                self.values@,
                                newc,
                                n_slots,
                            );
                            assert(false);
                        }
                        lemma_claim(empty_list@, pos as int, newc);
                        lemma_claimed_bounds(empty_list@.update(pos as int, false), newc);
                    }
                    let ghost marks_before = empty_list@;
                    empty_list[pos] = false;
                    placed += 1;
                    let ghost s0 = self.states@;
                    let ghost k0 = self.keys@;
                    let ghost v0 = self.values@;
                    let si = self.states[i];
                    let sp = self.states[pos];
                    self.states[i] = sp;
                    self.states[pos] = si;
                    let ki = self.keys[i];
                    let kp = self.keys[pos];
                    self.keys[i] = kp;
                    self.keys[pos] = ki;
                    let vi = self.values[i];
                    let vp = self.values[pos];
                    self.values[i] = vp;
                    self.values[pos] = vi;
                    proof {
                        assert(self.states@ =~= s0.update(i as int, s0[pos as int]).update(
                            pos as int,
                            s0[i as int],
                        ));
                        assert(self.keys@ =~= k0.update(i as int, k0[pos as int]).update(
                            pos as int,
                            k0[i as int],
                        ));
                        assert(self.values@ =~= v0.update(i as int, v0[pos as int]).update(
                            pos as int,
                            v0[i as int],
                        ));
                        lemma_entries_swap(s0, k0, v0, i as int, pos as int);
                        assert(self.keys@[pos as int] == key);
                        assert forall|p: int|
                            0 <= p < newc && !empty_list@[p] implies #[trigger] self.keys@[p]
                            == self.keys@[p] && forall|d2: int|
                            0 <= d2 < dist(home(self.keys@[p], newc as nat), p, newc) ==> !(
                            #[trigger] empty_list@[probe(home(self.keys@[p], newc as nat), d2, newc)]) by {
                            if p != pos as int {
                                assert(!marks_before[p]);
                                assert(p != i as int);
                                assert(self.keys@[p] == k0[p]);
                            }
                        }
                    }
                    if i == pos {
                        i += 1;
                    }
                }
            }
        }
        proof {
            assert forall|p: int|
                0 <= p < newc && self.states@[p] == MapValueState::Valid implies #[trigger] reachable_n(
                self.states@,
                self.keys@,
                p,
                newc,
            ) by {
                assert(!empty_list@[p]);
                let hp = home(self.keys@[p], newc as nat);
                assert forall|d2: int| 0 <= d2 < dist(hp, p, newc) implies #[trigger] self.states@[probe(
                    hp,
                    d2,
                    newc,
                )] != MapValueState::Empty by {
                    assert(!empty_list@[probe(hp, d2, newc)]);
                }
            }
        }
    }
    /// Resizes the table to `max(capacity, 64)` slots, moving every entry
    /// to its place in the resized table.
    fn rehash(&mut self, capacity: usize)
        requires
            old(self).wf(),
            old(self)@.len() < capacity || old(self)@.len() < MIN_CAPACITY,
            capacity <= max_capacity(),
        ensures
            final(self).wf(),
            final(self)@ == old(self)@,
            final(self).spec_capacity() == if capacity > MIN_CAPACITY {
                capacity
            } else {
                MIN_CAPACITY
            },
    {
        let current_capacity = self.states.len();
        let new_capacity = if capacity > MIN_CAPACITY {
            capacity
        } else {
            MIN_CAPACITY
        };
        if current_capacity < new_capacity {
            self.grow(current_capacity, new_capacity);
        } else if current_capacity > new_capacity {
            self.shrink(current_capacity, new_capacity);
        }
    }

    fn grow(&mut self, current_capacity: usize, new_capacity: usize)
        requires
            old(self).wf(),
            current_capacity == old(self).states@.len(),
            current_capacity < new_capacity <= max_capacity(),
            MIN_CAPACITY <= new_capacity,
            old(self)@.len() < new_capacity,
        ensures
            final(self).wf(),
            final(self)@ == old(self)@,
            final(self).spec_capacity() == new_capacity,
    {
        let ghost m = self@;
        let ghost s0 = self.states@;
        let ghost k0 = self.keys@;
        let ghost v0 = self.values@;
        self.states.resize(new_capacity, MapValueState::Empty);
        self.keys.resize(new_capacity, 0u64);
        self.values.resize(new_capacity, 0u64);
        proof {
            assert forall|q: int| 0 <= q < current_capacity implies self.states@[q] == s0[q]
                && self.keys@[q] == k0[q] && self.values@[q] == v0[q] by {
                assert(self.states@.subrange(0, current_capacity as int)[q] == self.states@[q]);
                assert(self.keys@.subrange(0, current_capacity as int)[q] == self.keys@[q]);
                assert(self.values@.subrange(0, current_capacity as int)[q] == self.values@[q]);
            }
            lemma_entries_tail(
                self.states@,
                self.keys@,
                self.values@,
                current_capacity as int,
                new_capacity as int,
            );
            lemma_entries_prefix(
                self.states@,
                self.keys@,
                self.values@,
                s0,
                k0,
                v0,
                current_capacity as int,
            );
        }
        self.rehash_values(current_capacity, new_capacity);
    }

    fn shrink(&mut self, current_capacity: usize, new_capacity: usize)
        requires
            old(self).wf(),
            current_capacity == old(self).states@.len(),
            MIN_CAPACITY <= new_capacity < current_capacity,
            old(self)@.len() < new_capacity,
        ensures
            final(self).wf(),
            final(self)@ == old(self)@,
            final(self).spec_capacity() == new_capacity,
    {
        self.rehash_values(current_capacity, new_capacity);
        let ghost s0 = self.states@;
        let ghost k0 = self.keys@;
        let ghost v0 = self.values@;
        self.states.truncate(new_capacity);
        self.keys.truncate(new_capacity);
        self.values.truncate(new_capacity);
        proof {
            lemma_entries_tail(s0, k0, v0, new_capacity as int, current_capacity as int);
            lemma_entries_prefix(
                self.states@,
                self.keys@,
                self.values@,
                s0,
                k0,
                v0,
                new_capacity as int,
            );
            assert forall|p: int|
                0 <= p < self.states@.len() && self.states@[p] == MapValueState::Valid implies #[trigger] reachable(
                self.states@,
                self.keys@,
                p,
            ) by {
                assert(reachable_n(s0, k0, p, new_capacity as int));
            }
        }
    }
    fn max_len(&self) -> (result: usize)
        requires
            self.states@.len() <= max_capacity(),
        ensures
            result == self.states@.len() * 15 / 16,
    {
        self.states.len() * 15 / 16
    }

    fn min_len(&self) -> (result: usize)
        requires
            self.states@.len() <= max_capacity(),
        ensures
            result == self.states@.len() * 7 / 16,
    {
        self.states.len() * 7 / 16
    }

    /// Grows the table when it is too full to take one more entry.
    fn ensure_room(&mut self)
        requires
            old(self).wf(),
            old(self)@.len() * 4 < max_capacity(),
        ensures
            final(self).wf(),
            final(self)@ == old(self)@,
            final(self).spec_capacity() > 0,
            final(self)@.len() < final(self).spec_capacity() * 15 / 16,
            final(self)@.len() + 1 < final(self).spec_capacity(),
            final(self).spec_capacity() == capacity_for_insert(
                old(self).spec_capacity(),
                old(self)@.len(),
            ),
    {
        if self.len >= self.max_len() {
            let cap = self.states.len();
            proof {
                if cap > 0 {
                    lemma_load(cap as int, self.len as int);
                }
            }
            self.rehash(cap * 2);
        }
        proof {
            lemma_load(self.states@.len() as int, self.len as int);
            if self.len >= self.states@.len() * 15 / 16 {
                lemma_load((self.states@.len() / 2) as int, self.len as int);
            }
        }
    }

    /// The first slot of the probe sequence of `key` that holds no entry,
    /// growing the table first when it is too full.
    fn free_index(&mut self, key: u64) -> (result: usize)
        requires
            old(self).wf(),
            old(self)@.len() * 4 < max_capacity(),
        ensures
            final(self).wf(),
            final(self)@ == old(self)@,
            result < final(self).states@.len(),
            final(self).states@[result as int] != MapValueState::Valid,
            forall|d: int|
                0 <= d < dist(home(key, final(self).states@.len()), result as int, final(self).states@.len() as int)
                    ==> #[trigger] final(self).states@[probe(
                    home(key, final(self).states@.len()),
                    d,
                    final(self).states@.len() as int,
                )] != MapValueState::Empty,
            final(self)@.len() + 1 < final(self).states@.len(),
            final(self).spec_capacity() == capacity_for_insert(
                old(self).spec_capacity(),
                old(self)@.len(),
            ),
    {
        self.ensure_room();
        let cap = self.states.len();
        let h = self.home_pos(key);
        let mut pos = h;
        let mut d: usize = 0;
        while d < cap
            invariant
                self.wf(),
                self@ == old(self)@,
                cap == self.states@.len(),
                self@.len() + 1 < cap,
                self.spec_capacity() == capacity_for_insert(
                    old(self).spec_capacity(),
                    old(self)@.len(),
                ),
                h == home(key, cap as nat),
                d <= cap,
                pos == probe(h as int, d as int, cap as int),
                forall|d2: int|
                    0 <= d2 < d ==> #[trigger] self.states@[probe(h as int, d2, cap as int)]
                        == MapValueState::Valid,
            decreases cap - d,
        {
            if self.states[pos] != MapValueState::Valid {
                return pos;
            }
            pos = self.next_pos(pos);
            d += 1;
        }
        proof {
            assert forall|q: int| 0 <= q < cap implies self.states@[q] == MapValueState::Valid by {
                assert(probe(h as int, dist(h as int, q, cap as int), cap as int) == q);
            }
            lemma_entries_len(self.states@, self.keys@, self.values@, cap as int);
        }
        pos
    }

    /// Puts the entry `(key, value)` into the free slot `index`.
    fn do_insert(&mut self, index: usize, key: u64, value: u64)
        requires
            old(self).wf(),
            index < old(self).states@.len(),
            old(self).states@[index as int] != MapValueState::Valid,
            forall|d: int|
                0 <= d < dist(home(key, old(self).states@.len()), index as int, old(self).states@.len() as int)
                    ==> #[trigger] old(self).states@[probe(
                    home(key, old(self).states@.len()),
                    d,
                    old(self).states@.len() as int,
                )] != MapValueState::Empty,
            old(self)@.len() + 1 < old(self).states@.len(),
        ensures
            final(self).wf(),
            final(self)@ == old(self)@.insert((key, value)),
            final(self).spec_capacity() == old(self).spec_capacity(),
    {
        let ghost s0 = self.states@;
        let ghost k0 = self.keys@;
        let ghost v0 = self.values@;
        self.states[index] = MapValueState::Valid;
        self.keys[index] = key;
        self.values[index] = value;
        self.len = self.len + 1;
        proof {
            let n = s0.len() as int;
            lemma_entries_update(s0, k0, v0, self.states@, self.keys@, self.values@, index as int, n);
            assert(self@ =~= old(self)@.insert((key, value)));
            assert forall|p: int|
                0 <= p < n && self.states@[p] == MapValueState::Valid implies #[trigger] reachable(
                self.states@,
                self.keys@,
                p,
            ) by {
                if p != index as int {
                    assert(reachable(s0, k0, p));
                }
            }
        }
    }

    /// Adds the entry `(key, value)`, keeping the entries already present
    /// (several entries may share a key, or even be equal).
    pub fn insert(&mut self, key: u64, value: u64)
        requires
            old(self).wf(),
            old(self)@.len() * 4 < max_capacity(),
        ensures
            final(self).wf(),
            final(self)@ == old(self)@.insert((key, value)),
            final(self).spec_capacity() == capacity_for_insert(
                old(self).spec_capacity(),
                old(self)@.len(),
            ),
    {
        let index = self.free_index(key);
        self.do_insert(index, key, value);
    }

    /// Turns the valid slot `pos` into a tombstone.
    fn drop_value(&mut self, pos: usize)
        requires
            old(self).wf(),
            pos < old(self).states@.len(),
            old(self).states@[pos as int] == MapValueState::Valid,
        ensures
            final(self).wf(),
            final(self)@ == old(self)@.remove(
                (old(self).keys@[pos as int], old(self).values@[pos as int]),
            ),
            final(self).states@ == old(self).states@.update(pos as int, MapValueState::Deleted),
            final(self).keys@ == old(self).keys@.update(pos as int, 0),
            final(self).values@ == old(self).values@.update(pos as int, 0),
            final(self).spec_capacity() == old(self).spec_capacity(),
            final(self)@.len() + 1 == old(self)@.len(),
    {
        let ghost s0 = self.states@;
        let ghost k0 = self.keys@;
        let ghost v0 = self.values@;
        let ghost e = (k0[pos as int], v0[pos as int]);
        self.states[pos] = MapValueState::Deleted;
        self.keys[pos] = 0;
        self.values[pos] = 0;
        proof {
            let n = s0.len() as int;
            lemma_entries_update(s0, k0, v0, self.states@, self.keys@, self.values@, pos as int, n);
            assert(self@.add(Multiset::singleton(e)) == old(self)@.add(Multiset::empty()));
            lemma_entries_present(s0, k0, v0, n, e);
            assert(slot_holds(s0, k0, v0, pos as int, e));
            assert(old(self)@.count(e) > 0);
            assert forall|x: (u64, u64)| #[trigger] self@.count(x) == old(self)@.remove(e).count(x) by {
                assert(self@.add(Multiset::singleton(e)).count(x) == old(self)@.add(
                    Multiset::empty(),
                ).count(x));
            }
            assert(self@ =~= old(self)@.remove(e));
            assert(self@.len() + 1 == old(self)@.len());
            assert forall|p: int|
                0 <= p < n && self.states@[p] == MapValueState::Valid implies #[trigger] reachable(
                self.states@,
                self.keys@,
                p,
            ) by {
                assert(reachable(s0, k0, p));
            }
        }
        self.len = self.len - 1;
    }
    /// Halves the table when it has become sparse.
    fn shrink_if_sparse(&mut self)
        requires
            old(self).wf(),
        ensures
            final(self).wf(),
            final(self)@ == old(self)@,
            final(self).spec_capacity() == capacity_after_remove(
                old(self).spec_capacity(),
                old(self)@.len(),
            ),
    {
        if self.states.len() > 0 && self.len <= self.min_len() {
            let cap = self.states.len();
            proof {
                lemma_load(cap as int, self.len as int);
            }
            self.rehash(cap / 2);
        }
    }

    /// Removes every entry with key `key`.
    pub fn remove_key(&mut self, key: u64)
        requires
            old(self).wf(),
        ensures
            final(self).wf(),
            forall|e: (u64, u64)| #[trigger] final(self)@.count(e) == if e.0 == key {
                0
            } else {
                old(self)@.count(e)
            },
            final(self).spec_capacity() == if final(self)@.len() < old(self)@.len() {
                capacity_after_remove(old(self).spec_capacity(), final(self)@.len())
            } else {
                old(self).spec_capacity()
            },
    {
        let cap = self.states.len();
        if cap == 0 {
            assert forall|e: (u64, u64)| #[trigger] self@.count(e) == 0 by {
                lemma_entries_absent(self.states@, self.keys@, self.values@, 0, e);
            }
            return;
        }
        let ghost s0 = self.states@;
        let ghost k0 = self.keys@;
        let ghost v0 = self.values@;
        let initial_len = self.len;
        let h = self.home_pos(key);
        let mut pos = h;
        let mut d: usize = 0;
        proof {
            assert(s0 =~= marked(s0, k0, key, h as int, 0));
        }
        while d < cap
            invariant
                self.wf(),
                cap == self.states@.len(),
                h == home(key, cap as nat),
                d <= cap,
                pos == probe(h as int, d as int, cap as int),
                s0.len() == cap,
                k0.len() == cap,
                v0.len() == cap,
                probe_ok(s0, k0),
                self.states@ == marked(s0, k0, key, h as int, d as int),
                forall|q: int|
                    0 <= q < cap ==> #[trigger] self.keys@[q] == if dist(h as int, q, cap as int) < d
                        && s0[q] == MapValueState::Valid && k0[q] == key {
                        0
                    } else {
                        k0[q]
                    },
                forall|q: int|
                    0 <= q < cap ==> #[trigger] self.values@[q] == if dist(h as int, q, cap as int)
                        < d && s0[q] == MapValueState::Valid && k0[q] == key {
                        0
                    } else {
                        v0[q]
                    },
                self.len <= initial_len,
            ensures
                d < cap ==> s0[pos as int] == MapValueState::Empty,
            decreases cap - d,
        {
            let state = self.states[pos];
            if state == MapValueState::Empty {
                break;
            }
            proof {
                lemma_marked_step(s0, k0, key, h as int, d as int);
            }
            if state == MapValueState::Valid && self.keys[pos] == key {
                self.drop_value(pos);
            }
            pos = self.next_pos(pos);
            d += 1;
            proof {
                assert(self.states@ =~= marked(s0, k0, key, h as int, d as int));
            }
        }
        proof {
            let m = marked(s0, k0, key, h as int, d as int);
            assert forall|e: (u64, u64)| #[trigger] self@.count(e) == if e.0 == key {
                0
            } else {
                old(self)@.count(e)
            } by {
                lemma_entries_pointwise(self.states@, self.keys@, self.values@, m, k0, v0, cap as int, e);
                if e.0 == key {
                    lemma_marked_complete(s0, k0, v0, key, d as int, e);
                } else {
                    lemma_entries_pointwise(m, k0, v0, s0, k0, v0, cap as int, e);
                }
            }
        }
        if self.len != initial_len {
            let ghost before = self@;
            self.shrink_if_sparse();
        }
    }

    /// Removes one entry equal to `(key, value)`, if there is one, then
    /// halves the table when it has become sparse.
    pub fn remove_value(&mut self, key: u64, value: u64)
        requires
            old(self).wf(),
        ensures
            final(self).wf(),
            final(self)@ == old(self)@.remove((key, value)),
            final(self).spec_capacity() == if old(self)@.count((key, value)) > 0 {
                capacity_after_remove(old(self).spec_capacity(), (old(self)@.len() - 1) as nat)
            } else {
                old(self).spec_capacity()
            },
    {
        let cap = self.states.len();
        if cap == 0 {
            assert(self@ =~= old(self)@.remove((key, value)));
            return;
        }
        let h = self.home_pos(key);
        let mut pos = h;
        let mut d: usize = 0;
        while d < cap
            invariant
                self.wf(),
                *self == *old(self),
                cap == self.states@.len(),
                h == home(key, cap as nat),
                d <= cap,
                pos == probe(h as int, d as int, cap as int),
                forall|q: int|
                    0 <= q < cap && dist(h as int, q, cap as int) < d ==> !slot_holds(
                        self.states@,
                        self.keys@,
                        self.values@,
                        q,
                        (key, value),
                    ),
            decreases cap - d,
        {
            match self.states[pos] {
                MapValueState::Empty => {
                    proof {
                        self.lemma_entry_absent_after_scan(key, value, d as int);
                        assert(self@ =~= old(self)@.remove((key, value)));
                    }
                    return;
                },
                MapValueState::Valid => {
                    if self.keys[pos] == key && self.values[pos] == value {
                        proof {
                            lemma_entries_present(
                                self.states@,
                                self.keys@,
                                self.values@,
                                cap as int,
                                (key, value),
                            );
                            assert(slot_holds(
                                self.states@,
                                self.keys@,
                                self.values@,
                                pos as int,
                                (key, value),
                            ));
                        }
                        self.remove_index(pos);
                        return;
                    }
                },
                MapValueState::Deleted => {},
            }
            pos = self.next_pos(pos);
            d += 1;
        }
        proof {
            self.lemma_entry_absent_after_scan(key, value, d as int);
            assert(self@ =~= old(self)@.remove((key, value)));
        }
    }

    fn remove_index(&mut self, index: usize)
        requires
            old(self).wf(),
            index < old(self).states@.len(),
            old(self).states@[index as int] == MapValueState::Valid,
        ensures
            final(self).wf(),
            final(self)@ == old(self)@.remove(
                (old(self).keys@[index as int], old(self).values@[index as int]),
            ),
            final(self).spec_capacity() == capacity_after_remove(
                old(self).spec_capacity(),
                (old(self)@.len() - 1) as nat,
            ),
    {
        self.drop_value(index);
        self.shrink_if_sparse();
    }

    /// Makes room for `capacity` slots; a table that is already large enough
    /// is left as it is.
    pub fn reserve(&mut self, capacity: u64)
        requires
            old(self).wf(),
            capacity <= max_capacity(),
        ensures
            final(self).wf(),
            final(self)@ == old(self)@,
            old(self).spec_capacity() < capacity ==> final(self).spec_capacity() == if capacity
                > MIN_CAPACITY {
                capacity as int
            } else {
                MIN_CAPACITY as int
            },
            old(self).spec_capacity() >= capacity ==> final(self).spec_capacity()
                == old(self).spec_capacity(),
    {
        if (self.states.len() as u64) < capacity {
            self.rehash(capacity as usize);
        }
    }
    /// Replaces the value of the first entry with key `key`, met when
    /// probing from the key's home slot, whose value `predicate` accepts and
    /// returns the old value; when no such entry exists adds `(key, new_value)`
    /// and returns `None`.
    pub fn insert_or_replace<P: Fn(&u64) -> bool>(
        &mut self,
        key: u64,
        predicate: P,
        new_value: u64,
    ) -> (result: Option<u64>)
        requires
            old(self).wf(),
            old(self)@.len() * 4 < max_capacity(),
            forall|v: &u64| predicate.requires((v,)),
        ensures
            final(self).wf(),
            match result {
                Some(v) => {
                    &&& old(self)@.count((key, v)) > 0
                    &&& predicate.ensures((&v,), true)
                    &&& final(self)@ == old(self)@.remove((key, v)).insert((key, new_value))
                },
                None => {
                    &&& final(self)@ == old(self)@.insert((key, new_value))
                    &&& forall|v: u64|
                        old(self)@.count((key, v)) > 0 ==> predicate.ensures((&v,), false)
                },
            },
            final(self).spec_capacity() == capacity_for_insert(
                old(self).spec_capacity(),
                old(self)@.len(),
            ),
            result is Some ==> exists|p: int|
                #[trigger] final(self).spec_slot_holds(p, (key, new_value)) && forall|q: int, w: u64|
                    #[trigger] final(self).spec_slot_holds(q, (key, w)) && final(self).spec_probe_distance(key, q) < final(self).spec_probe_distance(key, p)
                        ==> predicate.ensures((&w,), false),
    {
        self.ensure_room();
        let cap = self.states.len();
        let h = self.home_pos(key);
        let mut pos = h;
        let mut d: usize = 0;
        while d < cap
            invariant
                self.wf(),
                self@ == old(self)@,
                self@.len() + 1 < cap,
                self.spec_capacity() == capacity_for_insert(
                    old(self).spec_capacity(),
                    old(self)@.len(),
                ),
                forall|v: &u64| predicate.requires((v,)),
                cap == self.states@.len(),
                h == home(key, cap as nat),
                d <= cap,
                pos == probe(h as int, d as int, cap as int),
                forall|d2: int|
                    0 <= d2 < d ==> #[trigger] self.states@[probe(h as int, d2, cap as int)]
                        != MapValueState::Empty,
                forall|q: int|
                    0 <= q < cap && dist(h as int, q, cap as int) < d && self.states@[q]
                        == MapValueState::Valid && self.keys@[q] == key ==> predicate.ensures(
                        (&self.values@[q],),
                        false,
                    ),
            decreases cap - d,
        {
            let state = self.states[pos];
            if state == MapValueState::Empty {
                proof {
                    self.lemma_rejected_all(key, &predicate, d as int);
                }
                self.do_insert(pos, key, new_value);
                return None;
            }
            if state == MapValueState::Valid && self.keys[pos] == key {
                let old_value = self.values[pos];
                if predicate(&old_value) {
                    let ghost s0 = self.states@;
                    let ghost k0 = self.keys@;
                    let ghost v0 = self.values@;
                    self.values[pos] = new_value;
                    proof {
                        let n = cap as int;
                        lemma_entries_update(
                            s0,
                            k0,
                            v0,
                            self.states@,
                            self.keys@,
                            self.values@,
                            pos as int,
                            n,
                        );
                        lemma_entries_present(s0, k0, v0, n, (key, old_value));
                        assert(slot_holds(s0, k0, v0, pos as int, (key, old_value)));
                        let e1 = old(self)@;
                        let e2 = self@;
                        assert forall|x: (u64, u64)| #[trigger] e2.count(x) == e1.remove(
                            (key, old_value),
                        ).insert((key, new_value)).count(x) by {
                            assert(e2.add(Multiset::singleton((key, old_value))).count(x)
                                == e1.add(Multiset::singleton((key, new_value))).count(x));
                        }
                        assert(e2 =~= e1.remove((key, old_value)).insert((key, new_value)));
                        assert forall|p: int|
                            0 <= p < n && self.states@[p] == MapValueState::Valid implies #[trigger] reachable(
                            self.states@,
                            self.keys@,
                            p,
                        ) by {
                            assert(reachable(s0, k0, p));
                        }
                        let pp = pos as int;
                        assert(self.spec_slot_holds(pp, (key, new_value)));
                        assert(self.spec_probe_distance(key, pp) == d);
                        assert forall|q: int, w: u64|
                            #[trigger] self.spec_slot_holds(q, (key, w))
                                && self.spec_probe_distance(key, q) < self.spec_probe_distance(
                                key,
                                pp,
                            ) implies predicate.ensures((&w,), false) by {
                            assert(q != pp);
                            assert(self.values@[q] == v0[q]);
                        }
                    }
                    return Some(old_value);
                }
            }
            pos = self.next_pos(pos);
            d += 1;
        }
        proof {
            self.lemma_rejected_all(key, &predicate, d as int);
        }
        let index = self.free_index(key);
        self.do_insert(index, key, new_value);
        None
    }

    /// After a scan that stopped at an empty slot (or went round) with the
    /// predicate rejecting every value of `key` it passed, the predicate has
    /// rejected every value of `key`.
    proof fn lemma_rejected_all<P: Fn(&u64) -> bool>(&self, key: u64, predicate: &P, d: int)
        requires
            self.wf(),
            self.states@.len() > 0,
            0 <= d <= self.states@.len(),
            d < self.states@.len() ==> self.states@[probe(
                home(key, self.states@.len()),
                d,
                self.states@.len() as int,
            )] == MapValueState::Empty,
            forall|q: int|
                0 <= q < self.states@.len() && dist(
                    home(key, self.states@.len()),
                    q,
                    self.states@.len() as int,
                ) < d && self.states@[q] == MapValueState::Valid && self.keys@[q] == key
                    ==> predicate.ensures((&self.values@[q],), false),
        ensures
            forall|v: u64| self@.count((key, v)) > 0 ==> predicate.ensures((&v,), false),
    {
        let cap = self.states@.len() as int;
        assert forall|v: u64| self@.count((key, v)) > 0 implies predicate.ensures((&v,), false) by {
            lemma_entries_present(self.states@, self.keys@, self.values@, cap, (key, v));
            let q = choose|q: int|
                0 <= q < cap && slot_holds(self.states@, self.keys@, self.values@, q, (key, v));
            lemma_scan_complete(self.states@, self.keys@, key, d, q);
        }
    }

    /// Every entry, in slot order.
    pub fn iter(&self) -> (result: Vec<(u64, u64)>)
        requires
            self.wf(),
        ensures
            result@.to_multiset() == self@,
    {
        let mut result: Vec<(u64, u64)> = Vec::new();
        let cap = self.states.len();
        let mut pos: usize = 0;
        proof {
            broadcast use vstd::seq_lib::group_to_multiset_ensures;

            assert(result@.to_multiset() =~= slot_entries(self.states@, self.keys@, self.values@, 0));
        }
        while pos < cap
            invariant
                self.wf(),
                cap == self.states@.len(),
                pos <= cap,
                result@.to_multiset() == slot_entries(
                    self.states@,
                    self.keys@,
                    self.values@,
                    pos as int,
                ),
            decreases cap - pos,
        {
            broadcast use vstd::seq_lib::group_to_multiset_ensures;

            if self.states[pos] == MapValueState::Valid {
                result.push((self.keys[pos], self.values[pos]));
            }
            pos += 1;
        }
        result
    }
}

/// Removing an entry right after adding it gives the entries back.
pub proof fn law_remove_value_after_insert(m: Multiset<(u64, u64)>, key: u64, value: u64)
    ensures
        m.insert((key, value)).remove((key, value)) == m,
{
    assert(m.insert((key, value)).remove((key, value)) =~= m);
}

/// Adding an entry makes it present and adds one to the number of values
/// of its key, leaving the other keys' values alone.
pub proof fn law_insert_counts(m: Multiset<(u64, u64)>, key: u64, value: u64, other: u64)
    ensures
        m.insert((key, value)).count((key, value)) > 0,
        key_entries(m.insert((key, value)), key).len() == key_entries(m, key).len() + 1,
        other != key ==> key_entries(m.insert((key, value)), other) == key_entries(m, other),
{
    let m2 = m.insert((key, value));
    assert(key_entries(m2, key) =~= key_entries(m, key).insert((key, value)));
    if other != key {
        assert(key_entries(m2, other) =~= key_entries(m, other));
    }
}

/// After all values of a key are removed, no entry has that key and the
/// other keys keep their entries.
pub proof fn law_remove_key_clears(
    before: Multiset<(u64, u64)>,
    after: Multiset<(u64, u64)>,
    key: u64,
    other: u64,
)
    requires
        forall|e: (u64, u64)| #[trigger] after.count(e) == if e.0 == key {
            0
        } else {
            before.count(e)
        },
    ensures
        !has_key(after, key),
        key_entries(after, key).len() == 0,
        other != key ==> key_entries(after, other) == key_entries(before, other),
{
    assert(key_entries(after, key) =~= Multiset::empty());
    if other != key {
        assert(key_entries(after, other) =~= key_entries(before, other));
    }
}

} // verus!
