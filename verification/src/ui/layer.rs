//! Decisions of the layer panel: the order masks are listed in, and raising
//! and lowering the selected layer.

use vstd::prelude::*;

use crate::layer::mask::children_of;
use crate::layer::order::{count_members, group_rank, sorted_group_positions};

verus! {

/// How many positions are selected.
pub open spec fn count_selected(selected: Seq<bool>) -> nat
    decreases selected.len(),
{
    if selected.len() == 0 {
        0
    } else {
        count_selected(selected.drop_last()) + if selected.last() {
            1nat
        } else {
            0nat
        }
    }
}

/// The selected layer and the layers it can trade places with.
#[derive(Clone, Copy, Debug, PartialEq, Eq, Structural)]
pub struct LayerMove {
    /// Position of the selected layer, bottom first.
    pub selected: usize,
    /// The layer right above, which raising swaps with.
    pub raise_with: Option<usize>,
    /// The layer right below, which lowering swaps with.
    pub lower_with: Option<usize>,
}

/// Given which layers (bottom first) are selected, the moves offered by the Layer
/// menu: there must be at least two layers and exactly one selected; it can be
/// raised unless it is on top and lowered unless it is at the bottom.
pub fn layer_move_options(selected: &Vec<bool>) -> (r: Option<LayerMove>)
    ensures
        match r {
            Some(m) => {
                &&& selected.len() >= 2
                &&& count_selected(selected@) == 1
                &&& m.selected < selected.len()
                &&& selected@[m.selected as int]
                &&& m.raise_with == if m.selected + 1 < selected.len() {
                    Some((m.selected + 1) as usize)
                } else {
                    None::<usize>
                }
                &&& m.lower_with == if m.selected > 0 {
                    Some((m.selected - 1) as usize)
                } else {
                    None::<usize>
                }
            },
            None => selected.len() < 2 || count_selected(selected@) != 1,
        },
{
    let n = selected.len();
    let mut count: usize = 0;
    let mut found: usize = 0;
    let mut i: usize = 0;
    while i < n
        invariant
            n == selected.len(),
            i <= n,
            count == count_selected(selected@.take(i as int)),
            count <= i,
            count >= 1 ==> found < i && selected@[found as int],
        decreases n - i,
    {
        assert(selected@.take(i + 1).drop_last() =~= selected@.take(i as int));
        if selected[i] {
            count = count + 1;
            found = i;
        }
        i = i + 1;
    }
    assert(selected@.take(n as int) =~= selected@);
    if n >= 2 && count == 1 {
        let raise_with = if found + 1 < n {
            Some(found + 1)
        } else {
            None
        };
        let lower_with = if found > 0 {
            Some(found - 1)
        } else {
            None
        };
        Some(LayerMove { selected: found, raise_with, lower_with })
    } else {
        None
    }
}

/// The masks of the layer entity `layer`, in the order they apply: positions of
/// the masks whose parent is `layer`, sorted by key, masks with equal keys in the
/// order they are given.
pub fn masks_for_layer(orders: &Vec<u32>, parents: &Vec<u64>, layer: u64) -> (r: Vec<usize>)
    requires
        orders.len() == parents.len(),
    ensures
        r.len() == count_members(children_of(parents@, layer), orders.len() as int),
        forall|k: int|
            0 <= k < r.len() ==> {
                &&& r[k] < orders.len()
                &&& parents[r[k] as int] == layer
                &&& group_rank(orders@, children_of(parents@, layer), r[k] as int) == k
            },
{
    let mut group: Vec<bool> = Vec::new();
    let mut i: usize = 0;
    while i < parents.len()
        invariant
            i <= parents.len(),
            group@ == children_of(parents@.take(i as int), layer),
        decreases parents.len() - i,
    {
        group.push(parents[i] == layer);
        i = i + 1;
        assert(group@ =~= children_of(parents@.take(i as int), layer));
    }
    assert(parents@.take(parents.len() as int) =~= parents@);
    sorted_group_positions(orders, &group)
}

} // verus!
