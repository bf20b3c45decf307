//! Stacking order of layers and of masks within a layer.
//!
//! Each layer (and each mask) carries a `u32` order key.  New items are placed
//! half way between their neighbours, and from time to time the keys are
//! normalized back to evenly spaced values.

use vstd::prelude::*;
use vstd::set_lib::{lemma_int_range, lemma_map_size, lemma_subset_equality, set_int_range};

verus! {

/// Position `j` comes strictly before position `i`: by key, and by position
/// among equal keys (the order of a stable sort).
pub open spec fn precedes(orders: Seq<u32>, j: int, i: int) -> bool {
    orders[j] < orders[i] || (orders[j] == orders[i] && j < i)
}

/// How many group members among the first `n` positions come before `i`.
pub open spec fn count_preceding(orders: Seq<u32>, group: Seq<bool>, i: int, n: int) -> nat
    decreases n,
{
    if n <= 0 {
        0
    } else {
        count_preceding(orders, group, i, n - 1) + if group[n - 1] && precedes(orders, n - 1, i) {
            1nat
        } else {
            0nat
        }
    }
}

/// How many group members there are among the first `n` positions.
pub open spec fn count_members(group: Seq<bool>, n: int) -> nat
    decreases n,
{
    if n <= 0 {
        0
    } else {
        count_members(group, n - 1) + if group[n - 1] {
            1nat
        } else {
            0nat
        }
    }
}

/// The zero-based place of position `i` when the group is sorted stably by key.
pub open spec fn group_rank(orders: Seq<u32>, group: Seq<bool>, i: int) -> nat {
    count_preceding(orders, group, i, orders.len() as int)
}

/// The key of position `i` after the group has been renumbered: group members get
/// `spacing`, `2 * spacing`, ... in their stable sorted order, other positions keep
/// their key.
pub open spec fn normalized_order(orders: Seq<u32>, group: Seq<bool>, spacing: u32, i: int) -> int {
    if group[i] {
        (group_rank(orders, group, i) + 1) * spacing
    } else {
        orders[i] as int
    }
}

/// The smallest key above `bottom`, if any.
pub open spec fn min_above(orders: Seq<u32>, bottom: u32) -> Option<u32>
    decreases orders.len(),
{
    if orders.len() == 0 {
        None
    } else {
        let rest = min_above(orders.drop_last(), bottom);
        let x = orders.last();
        if x > bottom {
            match rest {
                Some(m) => Some(if x < m { x } else { m }),
                None => Some(x),
            }
        } else {
            rest
        }
    }
}

/// The largest key above `bottom`, if any.
pub open spec fn max_above(orders: Seq<u32>, bottom: u32) -> Option<u32>
    decreases orders.len(),
{
    if orders.len() == 0 {
        None
    } else {
        let rest = max_above(orders.drop_last(), bottom);
        let x = orders.last();
        if x > bottom {
            match rest {
                Some(m) => Some(if x > m { x } else { m }),
                None => Some(x),
            }
        } else {
            rest
        }
    }
}

/// `r` is the first position in `s` that holds `x`.
pub open spec fn is_first_index<T>(s: Seq<T>, x: T, r: int) -> bool {
    &&& 0 <= r < s.len()
    &&& s[r] == x
    &&& forall|k: int| 0 <= k < r ==> s[k] != x
}

/// The first position in `s` that holds `x` (meaningful when there is one).
pub open spec fn first_index<T>(s: Seq<T>, x: T) -> int {
    choose|r: int| is_first_index(s, x, r)
}

pub proof fn lemma_first_index_unique<T>(s: Seq<T>, x: T, r: int)
    requires
        is_first_index(s, x, r),
    ensures
        first_index(s, x) == r,
{
    let c = first_index(s, x);
    assert(is_first_index(s, x, c));
    if c < r {
        assert(s[c] != x);
    } else if r < c {
        assert(s[r] != x);
    }
}

/// A position of `x` in `s` exists, so `first_index` finds the first one.
pub proof fn lemma_first_index_exists<T>(s: Seq<T>, x: T)
    requires
        s.contains(x),
    ensures
        is_first_index(s, x, first_index(s, x)),
    decreases s.len(),
{
    let i = choose|i: int| 0 <= i < s.len() && s[i] == x;
    if s[0] == x {
        assert(is_first_index(s, x, 0));
    } else {
        let t = s.drop_first();
        assert(t[i - 1] == x);
        lemma_first_index_exists(t, x);
        let r = first_index(t, x);
        assert(is_first_index(s, x, r + 1)) by {
            assert forall|k: int| 0 <= k < r + 1 implies s[k] != x by {
                if k > 0 {
                    assert(s[k] == t[k - 1]);
                }
            }
        }
    }
}

proof fn lemma_count_preceding_bound(orders: Seq<u32>, group: Seq<bool>, i: int, m: int)
    requires
        0 <= m <= orders.len(),
        orders.len() == group.len(),
        0 <= i < orders.len(),
    ensures
        count_preceding(orders, group, i, m) + (if 0 <= i < m { 1int } else { 0int }) <= m,
    decreases m,
{
    if m > 0 {
        lemma_count_preceding_bound(orders, group, i, m - 1);
    }
}

/// A member that comes earlier is counted as preceding one fewer time.
proof fn lemma_count_preceding_strict(
    orders: Seq<u32>,
    group: Seq<bool>,
    i: int,
    j: int,
    m: int,
)
    requires
        0 <= m <= orders.len(),
        orders.len() == group.len(),
        0 <= i < orders.len(),
        0 <= j < orders.len(),
        group[i],
        precedes(orders, i, j),
    ensures
        count_preceding(orders, group, i, m) + (if i < m { 1int } else { 0int })
            <= count_preceding(orders, group, j, m),
    decreases m,
{
    if m > 0 {
        lemma_count_preceding_strict(orders, group, i, j, m - 1);
    }
}

/// Members never count more preceding members than there are other members.
proof fn lemma_count_preceding_below_members(
    orders: Seq<u32>,
    group: Seq<bool>,
    i: int,
    m: int,
)
    requires
        0 <= m <= orders.len(),
        orders.len() == group.len(),
        0 <= i < orders.len(),
        group[i],
    ensures
        count_preceding(orders, group, i, m) + (if i < m { 1int } else { 0int }) <= count_members(
            group,
            m,
        ),
    decreases m,
{
    if m > 0 {
        lemma_count_preceding_below_members(orders, group, i, m - 1);
    }
}

/// Within a group, an earlier position (by key, then by position) gets a lower rank.
pub proof fn lemma_group_rank_strictly_increasing(
    orders: Seq<u32>,
    group: Seq<bool>,
    i: int,
    j: int,
)
    requires
        orders.len() == group.len(),
        0 <= i < orders.len(),
        0 <= j < orders.len(),
        group[i],
        precedes(orders, i, j),
    ensures
        group_rank(orders, group, i) < group_rank(orders, group, j),
{
    lemma_count_preceding_strict(orders, group, i, j, orders.len() as int);
}

/// The rank of a group member is below the number of members.
pub proof fn lemma_group_rank_below_members(orders: Seq<u32>, group: Seq<bool>, i: int)
    requires
        orders.len() == group.len(),
        0 <= i < orders.len(),
        group[i],
    ensures
        group_rank(orders, group, i) < count_members(group, orders.len() as int),
{
    lemma_count_preceding_below_members(orders, group, i, orders.len() as int);
}

/// Renumbering keeps the stable sorted order of the group, gives distinct members
/// distinct keys, makes every member's key a positive multiple of `spacing` no
/// larger than `spacing` times the number of members, and leaves everything
/// outside the group as it was.
pub proof fn lemma_normalized_orders(
    orders: Seq<u32>,
    group: Seq<bool>,
    spacing: u32,
    i: int,
    j: int,
)
    requires
        orders.len() == group.len(),
        0 <= i < orders.len(),
        0 <= j < orders.len(),
        spacing > 0,
    ensures
        group[i] && group[j] && precedes(orders, i, j) ==> normalized_order(
            orders,
            group,
            spacing,
            i,
        ) < normalized_order(orders, group, spacing, j),
        group[i] && group[j] && i != j ==> normalized_order(orders, group, spacing, i)
            != normalized_order(orders, group, spacing, j),
        group[i] ==> normalized_order(orders, group, spacing, i) % (spacing as int) == 0,
        group[i] ==> spacing <= normalized_order(orders, group, spacing, i) <= count_members(
            group,
            orders.len() as int,
        ) * spacing,
        !group[i] ==> normalized_order(orders, group, spacing, i) == orders[i],
{
    if group[i] {
        lemma_group_rank_below_members(orders, group, i);
        let ri = group_rank(orders, group, i);
        let c = count_members(group, orders.len() as int);
        assert((ri + 1) * (spacing as int) % (spacing as int) == 0) by (nonlinear_arith)
            requires
                spacing > 0,
        ;
        assert(spacing <= (ri + 1) * (spacing as int) <= c * spacing) by (nonlinear_arith)
            requires
                spacing > 0,
                ri + 1 <= c,
        ;
        if group[j] {
            let rj = group_rank(orders, group, j);
            if precedes(orders, i, j) {
                lemma_group_rank_strictly_increasing(orders, group, i, j);
                assert((ri + 1) * (spacing as int) < (rj + 1) * (spacing as int)) by (nonlinear_arith)
                    requires
                        spacing > 0,
                        ri < rj,
                ;
            }
            if i != j {
                if precedes(orders, i, j) {
                    lemma_group_rank_strictly_increasing(orders, group, i, j);
                } else {
                    assert(precedes(orders, j, i));
                    lemma_group_rank_strictly_increasing(orders, group, j, i);
                }
                assert((ri + 1) * (spacing as int) != (rj + 1) * (spacing as int)) by (nonlinear_arith)
                    requires
                        spacing > 0,
                        ri != rj,
                ;
            }
        }
    }
}

/// Renumber the keys of the group members: in their stable sorted order they get
/// `spacing`, `2 * spacing`, and so on.  Keys outside the group are kept.
pub fn normalize_group_orders(orders: &Vec<u32>, group: &Vec<bool>, spacing: u32) -> (r: Vec<u32>)
    requires
        orders.len() == group.len(),
        spacing > 0,
        count_members(group@, orders.len() as int) * spacing <= u32::MAX,
    ensures
        r.len() == orders.len(),
        forall|i: int|
            0 <= i < r.len() ==> r[i] as int == normalized_order(orders@, group@, spacing, i),
{
    let n = orders.len();
    let mut r: Vec<u32> = Vec::new();
    let mut i: usize = 0;
    while i < n
        invariant
            n == orders.len(),
            n == group.len(),
            spacing > 0,
            count_members(group@, n as int) * spacing <= u32::MAX,
            i <= n,
            r.len() == i,
            forall|k: int|
                0 <= k < i ==> r[k] as int == normalized_order(orders@, group@, spacing, k),
        decreases n - i,
    {
        if group[i] {
            let count = rank_of(orders, group, i);
            proof {
                lemma_group_rank_below_members(orders@, group@, i as int);
                let c = count_members(group@, n as int);
                assert(count + 1 <= (count + 1) * spacing <= c * spacing) by (nonlinear_arith)
                    requires
                        count + 1 <= c,
                        spacing > 0,
                ;
            }
            let value = ((count + 1) as u32) * spacing;
            assert(value as int == normalized_order(orders@, group@, spacing, i as int));
            r.push(value);
        } else {
            r.push(orders[i]);
        }
        i = i + 1;
    }
    r
}

/// The smallest key above `bottom`, if any.
pub fn find_min_above(orders: &Vec<u32>, bottom: u32) -> (r: Option<u32>)
    ensures
        r == min_above(orders@, bottom),
{
    let mut best: Option<u32> = None;
    let mut i: usize = 0;
    while i < orders.len()
        invariant
            i <= orders.len(),
            best == min_above(orders@.take(i as int), bottom),
        decreases orders.len() - i,
    {
        assert(orders@.take(i + 1).drop_last() =~= orders@.take(i as int));
        let x = orders[i];
        if x > bottom {
            best = match best {
                Some(m) => Some(if x < m { x } else { m }),
                None => Some(x),
            };
        }
        i = i + 1;
    }
    assert(orders@.take(orders.len() as int) =~= orders@);
    best
}

/// The largest key above `bottom`, if any.
pub fn find_max_above(orders: &Vec<u32>, bottom: u32) -> (r: Option<u32>)
    ensures
        r == max_above(orders@, bottom),
{
    let mut best: Option<u32> = None;
    let mut i: usize = 0;
    while i < orders.len()
        invariant
            i <= orders.len(),
            best == max_above(orders@.take(i as int), bottom),
        decreases orders.len() - i,
    {
        assert(orders@.take(i + 1).drop_last() =~= orders@.take(i as int));
        let x = orders[i];
        if x > bottom {
            best = match best {
                Some(m) => Some(if x > m { x } else { m }),
                None => Some(x),
            };
        }
        i = i + 1;
    }
    assert(orders@.take(orders.len() as int) =~= orders@);
    best
}

/// A key found above `bottom` is one of the keys, lies above `bottom`, and no
/// other key lies strictly between `bottom` and it.
pub proof fn lemma_min_above(orders: Seq<u32>, bottom: u32)
    ensures
        match min_above(orders, bottom) {
            Some(m) => {
                &&& m > bottom
                &&& orders.contains(m)
                &&& forall|k: int| 0 <= k < orders.len() && orders[k] > bottom ==> m <= orders[k]
            },
            None => forall|k: int| 0 <= k < orders.len() ==> orders[k] <= bottom,
        },
    decreases orders.len(),
{
    if orders.len() > 0 {
        let t = orders.drop_last();
        lemma_min_above(t, bottom);
        assert forall|k: int| 0 <= k < t.len() implies orders[k] == t[k] by {}
        match min_above(t, bottom) {
            Some(m) => {
                let w = choose|w: int| 0 <= w < t.len() && t[w] == m;
                assert(orders[w] == m);
            },
            None => {},
        }
        if orders.last() > bottom {
            assert(orders[orders.len() - 1] == orders.last());
        }
    }
}

/// A key found above `bottom` is one of the keys, lies above `bottom`, and no key
/// is larger.
pub proof fn lemma_max_above(orders: Seq<u32>, bottom: u32)
    ensures
        match max_above(orders, bottom) {
            Some(m) => {
                &&& m > bottom
                &&& orders.contains(m)
                &&& forall|k: int| 0 <= k < orders.len() ==> orders[k] <= m
            },
            None => forall|k: int| 0 <= k < orders.len() ==> orders[k] <= bottom,
        },
    decreases orders.len(),
{
    if orders.len() > 0 {
        let t = orders.drop_last();
        lemma_max_above(t, bottom);
        assert forall|k: int| 0 <= k < t.len() implies orders[k] == t[k] by {}
        match max_above(t, bottom) {
            Some(m) => {
                let w = choose|w: int| 0 <= w < t.len() && t[w] == m;
                assert(orders[w] == m);
            },
            None => {},
        }
        if orders.last() > bottom {
            assert(orders[orders.len() - 1] == orders.last());
        }
    }
}

/// The positions of the group members.
pub open spec fn member_set(group: Seq<bool>, m: int) -> Set<int> {
    Set::new(|i: int| 0 <= i < m && group[i])
}

proof fn lemma_member_set_len(group: Seq<bool>, m: int)
    requires
        0 <= m <= group.len(),
    ensures
        member_set(group, m).finite(),
        member_set(group, m).len() == count_members(group, m),
    decreases m,
{
    if m == 0 {
        assert(member_set(group, m) =~= Set::<int>::empty());
    } else {
        lemma_member_set_len(group, m - 1);
        if group[m - 1] {
            assert(member_set(group, m) =~= member_set(group, m - 1).insert(m - 1));
        } else {
            assert(member_set(group, m) =~= member_set(group, m - 1));
        }
    }
}

/// Distinct group members have distinct ranks.
pub proof fn lemma_group_rank_injective(orders: Seq<u32>, group: Seq<bool>, i: int, j: int)
    requires
        orders.len() == group.len(),
        0 <= i < orders.len(),
        0 <= j < orders.len(),
        group[i],
        group[j],
        i != j,
    ensures
        group_rank(orders, group, i) != group_rank(orders, group, j),
{
    if precedes(orders, i, j) {
        lemma_group_rank_strictly_increasing(orders, group, i, j);
    } else {
        lemma_group_rank_strictly_increasing(orders, group, j, i);
    }
}

/// Every rank below the number of members belongs to some member.
pub proof fn lemma_group_rank_onto(orders: Seq<u32>, group: Seq<bool>, k: int)
    requires
        orders.len() == group.len(),
        0 <= k < count_members(group, orders.len() as int),
    ensures
        exists|i: int|
            0 <= i < orders.len() && group[i] && group_rank(orders, group, i) == k,
{
    let n = orders.len() as int;
    let c = count_members(group, n) as int;
    let members = member_set(group, n);
    let f = |i: int| group_rank(orders, group, i) as int;
    lemma_member_set_len(group, n);
    assert(vstd::relations::injective_on(f, members)) by {
        assert forall|a: int, b: int|
            members.contains(a) && members.contains(b) && #[trigger] f(a) == #[trigger] f(b)
            implies a == b by {
            if a != b {
                lemma_group_rank_injective(orders, group, a, b);
            }
        }
    }
    let image = members.map(f);
    lemma_map_size(members, image, f);
    lemma_int_range(0, c);
    assert(image.subset_of(set_int_range(0, c))) by {
        assert forall|v: int| image.contains(v) implies set_int_range(0, c).contains(v) by {
            let a = choose|a: int| members.contains(a) && f(a) == v;
            lemma_group_rank_below_members(orders, group, a);
        }
    }
    lemma_subset_equality(image, set_int_range(0, c));
    assert(set_int_range(0, c).contains(k));
    assert(image.contains(k));
    let a = choose|a: int| members.contains(a) && f(a) == k;
    assert(0 <= a < n && group[a] && group_rank(orders, group, a) == k);
}

/// The rank of the group member at position `i`.
fn rank_of(orders: &Vec<u32>, group: &Vec<bool>, i: usize) -> (r: usize)
    requires
        orders.len() == group.len(),
        i < orders.len(),
    ensures
        r == group_rank(orders@, group@, i as int),
{
    let n = orders.len();
    let mut count: usize = 0;
    let mut j: usize = 0;
    while j < n
        invariant
            n == orders.len(),
            n == group.len(),
            i < n,
            j <= n,
            count == count_preceding(orders@, group@, i as int, j as int),
        decreases n - j,
    {
        if group[j] && (orders[j] < orders[i] || (orders[j] == orders[i] && j < i)) {
            proof {
                lemma_count_preceding_bound(orders@, group@, i as int, j as int);
            }
            count = count + 1;
        }
        j = j + 1;
    }
    count
}

/// The positions of the group members in the stable sorted order of their keys:
/// the member of rank `k` is the `k`-th entry.
pub fn sorted_group_positions(orders: &Vec<u32>, group: &Vec<bool>) -> (r: Vec<usize>)
    requires
        orders.len() == group.len(),
    ensures
        r.len() == count_members(group@, orders.len() as int),
        forall|k: int|
            0 <= k < r.len() ==> {
                &&& r[k] < orders.len()
                &&& group[r[k] as int]
                &&& group_rank(orders@, group@, r[k] as int) == k
            },
{
    let n = orders.len();
    let mut c: usize = 0;
    let mut i: usize = 0;
    while i < n
        invariant
            n == orders.len(),
            n == group.len(),
            i <= n,
            c == count_members(group@, i as int),
            c <= i,
        decreases n - i,
    {
        if group[i] {
            c = c + 1;
        }
        i = i + 1;
    }
    let mut r: Vec<usize> = Vec::new();
    let mut k: usize = 0;
    while k < c
        invariant
            k <= c,
            r.len() == k,
        decreases c - k,
    {
        r.push(0);
        k = k + 1;
    }
    let mut i: usize = 0;
    while i < n
        invariant
            n == orders.len(),
            n == group.len(),
            i <= n,
            c == count_members(group@, n as int),
            r.len() == c,
            forall|j: int|
                0 <= j < i && group[j] ==> {
                    let q = group_rank(orders@, group@, j);
                    q < c && r[q as int] == j
                },
        decreases n - i,
    {
        if group[i] {
            let q = rank_of(orders, group, i);
            proof {
                lemma_group_rank_below_members(orders@, group@, i as int);
            }
            let ghost before = r@;
            r[q] = i;
            proof {
                assert forall|j: int|
                    0 <= j < i + 1 && group[j] implies {
                    let qj = group_rank(orders@, group@, j);
                    qj < c && r[qj as int] == j
                } by {
                    if j < i {
                        lemma_group_rank_injective(orders@, group@, j, i as int);
                        assert(r[group_rank(orders@, group@, j) as int] == before[group_rank(orders@, group@, j) as int]);
                    }
                }
            }
        }
        i = i + 1;
    }
    proof {
        assert forall|k: int| 0 <= k < r.len() implies {
            &&& r[k] < orders.len()
            &&& group[r[k] as int]
            &&& group_rank(orders@, group@, r[k] as int) == k
        } by {
            lemma_group_rank_onto(orders@, group@, k);
            let j = choose|j: int|
                0 <= j < orders.len() && group[j] && group_rank(orders@, group@, j) == k;
            assert(r[group_rank(orders@, group@, j) as int] == j);
        }
    }
    r
}

/// Listing the group in stable sorted order puts earlier members first.
pub proof fn lemma_sorted_group_positions_ordered(
    orders: Seq<u32>,
    group: Seq<bool>,
    positions: Seq<usize>,
    k: int,
    l: int,
)
    requires
        orders.len() == group.len(),
        forall|m: int|
            0 <= m < positions.len() ==> {
                &&& positions[m] < orders.len()
                &&& group[positions[m] as int]
                &&& group_rank(orders, group, positions[m] as int) == m
            },
        0 <= k < l < positions.len(),
    ensures
        precedes(orders, positions[k] as int, positions[l] as int),
{
    let a = positions[k] as int;
    let b = positions[l] as int;
    if a == b {
    } else if !precedes(orders, a, b) {
        lemma_group_rank_strictly_increasing(orders, group, b, a);
    }
}

} // verus!
