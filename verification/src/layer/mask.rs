//! Masks limit where a layer applies; each layer holds its masks in order.

use vstd::prelude::*;

use crate::id::{is_version7_uuid, MaskId};
use crate::layer::order::{
    count_members, find_max_above, first_index, is_first_index, lemma_first_index_unique, max_above,
    normalize_group_orders, normalized_order,
};

verus! {

/// Distance between the order keys of neighbouring masks after normalization.
pub const MASK_SPACING: u32 = 100;

/// The switch and the stable id of a mask.
#[derive(Clone, Copy, Debug, PartialEq, Eq, Structural)]
pub struct Mask {
    pub is_enabled: bool,
    id: MaskId,
}

/// The order key of a mask within its layer.
#[derive(Clone, Copy, Debug, PartialEq, Eq, Structural, PartialOrd, Ord, Hash)]
pub struct MaskOrder(pub u32);

impl Mask {
    pub closed spec fn ident(self) -> MaskId {
        self.id
    }

    pub closed spec fn enabled(self) -> bool {
        self.is_enabled
    }

    pub fn is_enabled(&self) -> (r: bool)
        ensures
            r == self.enabled(),
    {
        self.is_enabled
    }

    /// Switch the mask on or off.
    pub fn set_enabled(&mut self, is_enabled: bool)
        ensures
            final(self).enabled() == is_enabled,
            final(self).ident() == old(self).ident(),
    {
        self.is_enabled = is_enabled;
    }

    pub fn id(&self) -> (r: MaskId)
        ensures
            r == self.ident(),
    {
        self.id
    }

    /// An enabled mask with the given id.
    pub fn new(id: MaskId) -> (r: Self)
        ensures
            r.ident() == id,
            r.enabled(),
    {
        Mask { is_enabled: true, id }
    }

    /// A fresh mask id.
    pub fn new_id() -> (r: MaskId)
        ensures
            is_version7_uuid(r.value()),
    {
        MaskId::new()
    }
}

impl Default for Mask {
    /// An enabled mask with a fresh id.
    fn default() -> (r: Self)
        ensures
            r.enabled(),
            is_version7_uuid(r.ident().value()),
    {
        Mask::new(Mask::new_id())
    }
}

/// Which masks belong to the layer entity `layer`.
pub open spec fn children_of(parents: Seq<u64>, layer: u64) -> Seq<bool> {
    Seq::new(parents.len(), |i: int| parents[i] == layer)
}

/// The order key of the mask a new mask goes above: the key of the first mask
/// with the id `previous`, or 0 when there is none.
pub open spec fn bottom_mask_order(ids: Seq<MaskId>, orders: Seq<u32>, previous: Option<MaskId>) -> u32 {
    match previous {
        Some(p) => orders[first_index(ids, p)],
        None => 0,
    }
}

/// The largest key of the layer's masks above `bottom`, or `bottom + 2 * MASK_SPACING`
/// when there is none.
pub open spec fn top_mask_order(orders: Seq<u32>, bottom: u32) -> int {
    match max_above(orders, bottom) {
        Some(t) => t as int,
        None => bottom + 2 * MASK_SPACING,
    }
}

pub open spec fn new_mask_order_value(ids: Seq<MaskId>, orders: Seq<u32>, previous: Option<MaskId>) -> int {
    let bottom = bottom_mask_order(ids, orders, previous);
    (bottom + top_mask_order(orders, bottom)) / 2
}

/// Renumber the keys of the masks whose parent is `layer` to `MASK_SPACING`,
/// `2 * MASK_SPACING`, ... in the stable sorted order of their keys; the keys of
/// other masks are kept.  The layer's own masks must fit the key range.
pub fn normalize_mask_orders(orders: &Vec<u32>, parents: &Vec<u64>, layer: u64) -> (r: Vec<u32>)
    requires
        orders.len() == parents.len(),
        count_members(children_of(parents@, layer), orders.len() as int) * MASK_SPACING
            <= u32::MAX,
    ensures
        r.len() == orders.len(),
        forall|i: int|
            0 <= i < r.len() ==> r[i] as int == normalized_order(
                orders@,
                children_of(parents@, layer),
                MASK_SPACING,
                i,
            ),
{
    let mut group: Vec<bool> = Vec::new();
    let mut i: usize = 0;
    while i < parents.len()
        invariant
            i <= parents.len(),
            group@ == children_of(parents@.take(i as int), layer),
        decreases parents.len() - i,
    {
        group.push(parents[i] == layer);
        i = i + 1;
        assert(group@ =~= children_of(parents@.take(i as int), layer));
    }
    assert(parents@.take(parents.len() as int) =~= parents@);
    normalize_group_orders(orders, &group, MASK_SPACING)
}

/// The key of a new mask of a layer placed above the mask `previous` (at the
/// bottom when there is none), given the ids and keys of the layer's masks: half
/// way between that mask's key and the largest key above it, or `MASK_SPACING`
/// above it when nothing is above.
pub fn new_mask_order(ids: &Vec<MaskId>, orders: &Vec<u32>, previous: Option<MaskId>) -> (r: u32)
    requires
        ids.len() == orders.len(),
        match previous {
            Some(p) => ids@.contains(p),
            None => true,
        },
        bottom_mask_order(ids@, orders@, previous) + top_mask_order(
            orders@,
            bottom_mask_order(ids@, orders@, previous),
        ) <= u32::MAX,
    ensures
        r as int == new_mask_order_value(ids@, orders@, previous),
        lies_half_way_to_top(orders@, bottom_mask_order(ids@, orders@, previous) as int, r as int),
{
    proof {
        lemma_half_way_at_bottom(ids@, orders@, previous);
    }
    let bottom: u32 = match previous {
        Some(p) => {
            let mut i: usize = 0;
            while i < ids.len() && ids[i] != p
                invariant
                    i <= ids.len(),
                    ids@.contains(p),
                    forall|k: int| 0 <= k < i ==> ids@[k] != p,
                decreases ids.len() - i,
            {
                i = i + 1;
            }
            proof {
                if i == ids.len() {
                    let w = choose|w: int| 0 <= w < ids.len() && ids@[w] == p;
                    assert(false);
                }
                assert(is_first_index(ids@, p, i as int));
                lemma_first_index_unique(ids@, p, i as int);
            }
            orders[i]
        },
        None => 0,
    };
    let top: u32 = match find_max_above(orders, bottom) {
        Some(t) => t,
        None => bottom + 2 * MASK_SPACING,
    };
    (bottom + top) / 2
}

/// `key` lies half way between `bottom` and the largest key above it among
/// `orders` (the keys of the layer's masks): it is at least half way to every
/// key above `bottom` and exactly half way to one of them; with no key above
/// `bottom` it is `MASK_SPACING` above `bottom`.
pub open spec fn lies_half_way_to_top(orders: Seq<u32>, bottom: int, key: int) -> bool {
    &&& forall|k: int|
        0 <= k < orders.len() && orders[k] > bottom ==> (bottom + #[trigger] orders[k]) / 2 <= key
    &&& (exists|k: int| 0 <= k < orders.len() && #[trigger] orders[k] > bottom) ==> exists|k: int|
        0 <= k < orders.len() && #[trigger] orders[k] > bottom && key == (bottom + orders[k]) / 2
    &&& (forall|k: int| 0 <= k < orders.len() ==> #[trigger] orders[k] <= bottom) ==> key == bottom
        + MASK_SPACING
}

/// A new mask's key lies half way between the previous mask's key (0 without
/// one) and the largest key above it, whatever order the masks are listed in.
pub proof fn lemma_new_mask_key_half_way_to_top(
    ids: Seq<MaskId>,
    orders: Seq<u32>,
    previous: Option<MaskId>,
)
    requires
        ids.len() == orders.len(),
    ensures
        previous is None ==> lies_half_way_to_top(
            orders,
            0,
            new_mask_order_value(ids, orders, previous),
        ),
        forall|i: int|
            0 <= i < ids.len() && previous == Some(#[trigger] ids[i]) && (forall|k: int|
                0 <= k < i ==> ids[k] != ids[i]) ==> lies_half_way_to_top(
                orders,
                orders[i] as int,
                new_mask_order_value(ids, orders, previous),
            ),
{
    lemma_half_way_at_bottom(ids, orders, previous);
    assert forall|i: int|
        0 <= i < ids.len() && previous == Some(#[trigger] ids[i]) && (forall|k: int|
            0 <= k < i ==> ids[k] != ids[i]) implies lies_half_way_to_top(
        orders,
        orders[i] as int,
        new_mask_order_value(ids, orders, previous),
    ) by {
        assert(is_first_index(ids, ids[i], i));
        lemma_first_index_unique(ids, ids[i], i);
    }
}

proof fn lemma_half_way_at_bottom(ids: Seq<MaskId>, orders: Seq<u32>, previous: Option<MaskId>)
    ensures
        lies_half_way_to_top(
            orders,
            bottom_mask_order(ids, orders, previous) as int,
            new_mask_order_value(ids, orders, previous),
        ),
{
    let b = bottom_mask_order(ids, orders, previous);
    crate::layer::order::lemma_max_above(orders, b);
    match max_above(orders, b) {
        Some(m) => {
            let w = choose|w: int| 0 <= w < orders.len() && orders[w] == m;
            assert(orders[w] > b);
            assert forall|k: int|
                0 <= k < orders.len() && orders[k] > b implies (b + #[trigger] orders[k]) / 2
                <= new_mask_order_value(ids, orders, previous) by {
                assert(orders[k] <= m);
            }
        },
        None => {},
    }
}

/// Whether `new_mask_order` can place a mask above `previous`: the mask is
/// among `ids`, and the two keys the new one lies between add up to at most
/// `u32::MAX`.
pub open spec fn mask_order_computable(ids: Seq<MaskId>, orders: Seq<u32>, previous: Option<MaskId>) -> bool {
    &&& previous matches Some(p) ==> ids.contains(p)
    &&& bottom_mask_order(ids, orders, previous) + top_mask_order(
        orders,
        bottom_mask_order(ids, orders, previous),
    ) <= u32::MAX
}

/// The key `new_mask_order` gives, where it can be computed; `None` otherwise.
pub fn checked_new_mask_order(ids: &Vec<MaskId>, orders: &Vec<u32>, previous: Option<MaskId>) -> (r:
    Option<u32>)
    requires
        ids.len() == orders.len(),
    ensures
        r is Some <==> mask_order_computable(ids@, orders@, previous),
        r matches Some(v) ==> v as int == new_mask_order_value(ids@, orders@, previous),
        r matches Some(v) ==> lies_half_way_to_top(
            orders@,
            bottom_mask_order(ids@, orders@, previous) as int,
            v as int,
        ),
{
    proof {
        lemma_half_way_at_bottom(ids@, orders@, previous);
    }
    let bottom: u32 = match previous {
        Some(p) => {
            let mut i: usize = 0;
            while i < ids.len() && ids[i] != p
                invariant
                    i <= ids.len(),
                    forall|k: int| 0 <= k < i ==> ids@[k] != p,
                decreases ids.len() - i,
            {
                i = i + 1;
            }
            if i == ids.len() {
                proof {
                    if ids@.contains(p) {
                        let w = choose|w: int| 0 <= w < ids.len() && ids@[w] == p;
                        assert(ids@[w] != p);
                    }
                }
                return None;
            }
            proof {
                assert(ids@[i as int] == p);
                assert(is_first_index(ids@, p, i as int));
                lemma_first_index_unique(ids@, p, i as int);
            }
            orders[i]
        },
        None => 0,
    };
    let top: u64 = match find_max_above(orders, bottom) {
        Some(t) => t as u64,
        None => bottom as u64 + 2 * (MASK_SPACING as u64),
    };
    if bottom as u64 + top > u32::MAX as u64 {
        None
    } else {
        Some(((bottom as u64 + top) / 2) as u32)
    }
}

/// A new mask lands strictly above the mask it is placed over, and strictly below
/// the top of the layer's masks when that is at least two keys higher; with
/// nothing above, it lands `MASK_SPACING` above.
pub proof fn lemma_new_mask_above_previous(ids: Seq<MaskId>, orders: Seq<u32>, previous: Option<MaskId>)
    ensures
        ({
            let bottom = bottom_mask_order(ids, orders, previous);
            let top = top_mask_order(orders, bottom);
            &&& top > bottom + 1 ==> bottom < new_mask_order_value(ids, orders, previous) < top
            &&& max_above(orders, bottom) is None ==> new_mask_order_value(ids, orders, previous)
                == bottom + MASK_SPACING
        }),
{
    crate::layer::order::lemma_max_above(orders, bottom_mask_order(ids, orders, previous));
}

} // verus!
