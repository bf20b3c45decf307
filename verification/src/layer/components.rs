//! The layer record and the placement of layers in the stack.

use vstd::prelude::*;

use crate::id::{uuid_short_text, LayerId};
use crate::layer::order::{
    find_min_above, first_index, is_first_index, lemma_first_index_unique, min_above,
    normalize_group_orders, normalized_order, sorted_group_positions, group_rank,
};

verus! {

/// Distance between the order keys of neighbouring layers after normalization.
pub const LAYER_SPACING: u32 = 100;

/// The lowest and highest height a constant layer can be given.
pub const HEIGHT_RANGE_MIN: i32 = -16000;

pub const HEIGHT_RANGE_MAX: i32 = 64000;

/// A layer of the height map.
#[derive(Debug)]
pub struct Layer {
    pub name: String,
    pub enable_baking: bool,
    pub enable_preview: bool,
    id: LayerId,
}

/// The order key of a layer: layers with lower keys are applied first.
#[derive(Clone, Copy, Debug, PartialEq, Eq, Structural, PartialOrd, Ord, Hash)]
pub struct LayerOrder(pub u32);

/// Every position belongs to the group.
pub open spec fn all_members(n: nat) -> Seq<bool> {
    Seq::new(n, |i: int| true)
}

/// The order key of the layer a new layer goes above: the key of the first layer
/// with the parent id, or 0 when there is no parent.
pub open spec fn bottom_layer_order(ids: Seq<LayerId>, orders: Seq<u32>, parent: Option<LayerId>) -> u32 {
    match parent {
        Some(p) => orders[first_index(ids, p)],
        None => 0,
    }
}

/// The key a new layer goes below: the smallest key above `bottom`, or
/// `bottom + 2 * LAYER_SPACING` when the new layer goes on top.
pub open spec fn top_layer_order(orders: Seq<u32>, bottom: u32) -> int {
    match min_above(orders, bottom) {
        Some(t) => t as int,
        None => bottom + 2 * LAYER_SPACING,
    }
}

/// The key of a new layer placed right above `parent` (or at the bottom).
pub open spec fn new_layer_order_value(ids: Seq<LayerId>, orders: Seq<u32>, parent: Option<LayerId>) -> int {
    let bottom = bottom_layer_order(ids, orders, parent);
    (bottom + top_layer_order(orders, bottom)) / 2
}

/// The mathematical content of a [`Layer`].
pub struct LayerView {
    pub name: Seq<char>,
    pub enable_baking: bool,
    pub enable_preview: bool,
    pub id: LayerId,
}

impl LayerView {
    /// The same layer with its baking and preview switches set.
    pub open spec fn with_switches(self, enable_baking: bool, enable_preview: bool) -> LayerView {
        LayerView { enable_baking, enable_preview, ..self }
    }
}

impl View for Layer {
    type V = LayerView;

    closed spec fn view(&self) -> LayerView {
        LayerView {
            name: self.name@,
            enable_baking: self.enable_baking,
            enable_preview: self.enable_preview,
            id: self.id,
        }
    }
}

impl Layer {
    /// Set the baking and preview switches.
    pub fn set_switches(&mut self, enable_baking: bool, enable_preview: bool)
        ensures
            final(self)@ == old(self)@.with_switches(enable_baking, enable_preview),
    {
        self.enable_baking = enable_baking;
        self.enable_preview = enable_preview;
    }

    /// Give the layer a new name.
    pub fn set_name(&mut self, name: String)
        ensures
            final(self)@ == (LayerView { name: name@, ..old(self)@ }),
    {
        self.name = name;
    }

    pub fn enable_baking(&self) -> (r: bool)
        ensures
            r == self@.enable_baking,
    {
        self.enable_baking
    }

    pub fn enable_preview(&self) -> (r: bool)
        ensures
            r == self@.enable_preview,
    {
        self.enable_preview
    }

    pub fn name(&self) -> (r: &String)
        ensures
            r@ == self@.name,
    {
        &self.name
    }

    pub fn id(&self) -> (r: LayerId)
        ensures
            r == self@.id,
    {
        self.id
    }

    /// A layer named `<unnamed>`, with baking and preview on.
    pub fn new(id: LayerId) -> (r: Self)
        ensures
            r@.id == id,
            r@.name == "<unnamed>"@,
            r@.enable_baking,
            r@.enable_preview,
    {
        Layer { name: String::from_str("<unnamed>"), enable_baking: true, enable_preview: true, id }
    }

    /// The entity name of the layer: `Layer 0x` followed by the last seven
    /// hexadecimal digits of its id.
    pub fn name_component(&self) -> (r: String)
        ensures
            r@ == "Layer 0x"@ + uuid_short_text(self@.id.value()),
    {
        let mut r = String::from_str("Layer 0x");
        let short = self.id.short_string();
        r.append(short.as_str());
        r
    }

    /// The text a layer is shown as: the last seven hexadecimal digits of its id.
    pub fn to_display_string(&self) -> (r: String)
        ensures
            r@ == uuid_short_text(self@.id.value()),
    {
        self.id.short_string()
    }
}

impl Default for Layer {
    /// A layer with a fresh id, named `<unnamed>`, with baking and preview on.
    fn default() -> (r: Self)
        ensures
            r@.name == "<unnamed>"@,
            r@.enable_baking,
            r@.enable_preview,
    {
        Layer::new(LayerId::new())
    }
}

/// Renumber layer keys to `LAYER_SPACING`, `2 * LAYER_SPACING`, ... in the
/// stable sorted order of the current keys.
pub fn normalize_layer_orders(orders: &Vec<u32>) -> (r: Vec<u32>)
    requires
        orders.len() * LAYER_SPACING <= u32::MAX,
    ensures
        r.len() == orders.len(),
        forall|i: int|
            0 <= i < r.len() ==> r[i] as int == normalized_order(
                orders@,
                all_members(orders.len() as nat),
                LAYER_SPACING,
                i,
            ),
{
    let mut group: Vec<bool> = Vec::new();
    let mut i: usize = 0;
    while i < orders.len()
        invariant
            i <= orders.len(),
            group@ == all_members(i as nat),
        decreases orders.len() - i,
    {
        group.push(true);
        i = i + 1;
        assert(group@ =~= all_members(i as nat));
    }
    proof {
        lemma_count_all_members(orders.len() as int);
    }
    normalize_group_orders(orders, &group, LAYER_SPACING)
}

/// The positions of the layers from the bottom of the stack to the top: sorted by
/// key, layers with equal keys in the order they are given.
pub fn layers_in_order(orders: &Vec<u32>) -> (r: Vec<usize>)
    ensures
        r.len() == orders.len(),
        forall|k: int|
            0 <= k < r.len() ==> r[k] < orders.len() && group_rank(
                orders@,
                all_members(orders.len() as nat),
                r[k] as int,
            ) == k,
{
    let mut group: Vec<bool> = Vec::new();
    let mut i: usize = 0;
    while i < orders.len()
        invariant
            i <= orders.len(),
            group@ == all_members(i as nat),
        decreases orders.len() - i,
    {
        group.push(true);
        i = i + 1;
        assert(group@ =~= all_members(i as nat));
    }
    proof {
        lemma_count_all_members(orders.len() as int);
    }
    sorted_group_positions(orders, &group)
}

proof fn lemma_count_all_members(n: int)
    requires
        n >= 0,
    ensures
        crate::layer::order::count_members(all_members(n as nat), n) == n,
{
    lemma_count_all_members_prefix(n, n);
}

proof fn lemma_count_all_members_prefix(n: int, m: int)
    requires
        0 <= m <= n,
    ensures
        crate::layer::order::count_members(all_members(n as nat), m) == m,
    decreases m,
{
    if m > 0 {
        lemma_count_all_members_prefix(n, m - 1);
    }
}

proof fn lemma_count_preceding_increasing(orders: Seq<u32>, i: int, m: int)
    requires
        forall|a: int, b: int| 0 <= a < b < orders.len() ==> orders[a] < orders[b],
        0 <= i < orders.len(),
        0 <= m <= orders.len(),
    ensures
        crate::layer::order::count_preceding(orders, all_members(orders.len()), i, m) == if m
            <= i {
            m
        } else {
            i
        },
    decreases m,
{
    if m > 0 {
        lemma_count_preceding_increasing(orders, i, m - 1);
        if m - 1 < i {
            assert(orders[m - 1] < orders[i]);
        } else if m - 1 > i {
            assert(orders[i] < orders[m - 1]);
        }
    }
}

/// Layers inserted bottom first with the keys `initial_layer_orders` gives are
/// listed back by `layers_in_order` in the order they were inserted.
pub proof fn lemma_insert_then_extract(orders: Seq<u32>, positions: Seq<usize>)
    requires
        forall|i: int| 0 <= i < orders.len() ==> orders[i] as int == i * LAYER_SPACING,
        positions.len() == orders.len(),
        forall|k: int|
            0 <= k < positions.len() ==> positions[k] < orders.len() && group_rank(
                orders,
                all_members(orders.len()),
                positions[k] as int,
            ) == k,
    ensures
        forall|k: int| 0 <= k < positions.len() ==> positions[k] == k,
{
    assert forall|a: int, b: int| 0 <= a < b < orders.len() implies orders[a] < orders[b] by {
        assert(a * LAYER_SPACING < b * LAYER_SPACING) by (nonlinear_arith)
            requires
                a < b,
        ;
    }
    assert forall|k: int| 0 <= k < positions.len() implies positions[k] == k by {
        lemma_count_preceding_increasing(orders, positions[k] as int, orders.len() as int);
    }
}

/// The keys of layers inserted into an empty project, bottom first: 0,
/// `LAYER_SPACING`, `2 * LAYER_SPACING`, ...
pub fn initial_layer_orders(n: usize) -> (r: Vec<u32>)
    requires
        n * LAYER_SPACING <= u32::MAX + LAYER_SPACING,
    ensures
        r.len() == n,
        forall|i: int| 0 <= i < n ==> r[i] as int == i * LAYER_SPACING,
{
    let mut r: Vec<u32> = Vec::new();
    let mut i: usize = 0;
    while i < n
        invariant
            i <= n,
            n * LAYER_SPACING <= u32::MAX + LAYER_SPACING,
            r.len() == i,
            forall|k: int| 0 <= k < i ==> r[k] as int == k * LAYER_SPACING,
        decreases n - i,
    {
        r.push((i as u32) * LAYER_SPACING);
        i = i + 1;
    }
    r
}

/// The key of a new layer placed right above the layer `parent` (at the bottom
/// when there is none): half way between that layer's key and the next key above
/// it, or `LAYER_SPACING` above it when nothing is above.
pub fn new_layer_order(ids: &Vec<LayerId>, orders: &Vec<u32>, parent: Option<LayerId>) -> (r: u32)
    requires
        ids.len() == orders.len(),
        match parent {
            Some(p) => ids@.contains(p),
            None => true,
        },
        bottom_layer_order(ids@, orders@, parent) + top_layer_order(
            orders@,
            bottom_layer_order(ids@, orders@, parent),
        ) <= u32::MAX,
    ensures
        r as int == new_layer_order_value(ids@, orders@, parent),
        lies_just_above(orders@, bottom_layer_order(ids@, orders@, parent) as int, r as int),
{
    proof {
        crate::layer::order::lemma_min_above(orders@, bottom_layer_order(ids@, orders@, parent));
    }
    let bottom: u32 = match parent {
        Some(p) => {
            let mut i: usize = 0;
            while i < ids.len() && ids[i] != p
                invariant
                    i <= ids.len(),
                    ids@.contains(p),
                    forall|k: int| 0 <= k < i ==> ids@[k] != p,
                decreases ids.len() - i,
            {
                i = i + 1;
            }
            proof {
                if i == ids.len() {
                    let w = choose|w: int| 0 <= w < ids.len() && ids@[w] == p;
                    assert(false);
                }
                assert(is_first_index(ids@, p, i as int));
                lemma_first_index_unique(ids@, p, i as int);
            }
            orders[i]
        },
        None => 0,
    };
    let top: u32 = match find_min_above(orders, bottom) {
        Some(t) => t,
        None => bottom + 2 * LAYER_SPACING,
    };
    (bottom + top) / 2
}

/// `key` lies just above `bottom` among `orders`: not below `bottom`, at most
/// every key above `bottom`, strictly below each key at least two above it,
/// half way between `bottom` and the smallest key above it, and `LAYER_SPACING`
/// above `bottom` when no key is above it.
pub open spec fn lies_just_above(orders: Seq<u32>, bottom: int, key: int) -> bool {
    &&& bottom <= key
    &&& (exists|k: int| 0 <= k < orders.len() && #[trigger] orders[k] > bottom) ==> exists|k: int|
        0 <= k < orders.len() && #[trigger] orders[k] > bottom && key == (bottom + orders[k]) / 2
            && forall|m: int| 0 <= m < orders.len() && orders[m] > bottom ==> orders[k] <= #[trigger] orders[m]
    &&& forall|k: int|
        0 <= k < orders.len() && orders[k] > bottom ==> key <= #[trigger] orders[k] && (orders[k]
            >= bottom + 2 ==> key < orders[k])
    &&& (forall|k: int| 0 <= k < orders.len() ==> #[trigger] orders[k] <= bottom) ==> key == bottom
        + LAYER_SPACING
}

/// A new layer's key lies just above its parent's key (above 0 without a
/// parent), whatever order the layers are listed in: no existing key falls
/// between the parent and the new layer.
pub proof fn lemma_new_layer_key_just_above_parent(
    ids: Seq<LayerId>,
    orders: Seq<u32>,
    parent: Option<LayerId>,
)
    requires
        ids.len() == orders.len(),
    ensures
        parent is None ==> lies_just_above(orders, 0, new_layer_order_value(ids, orders, parent)),
        forall|i: int|
            0 <= i < ids.len() && parent == Some(#[trigger] ids[i]) && (forall|k: int|
                0 <= k < i ==> ids[k] != ids[i]) ==> lies_just_above(
                orders,
                orders[i] as int,
                new_layer_order_value(ids, orders, parent),
            ),
{
    let b = bottom_layer_order(ids, orders, parent);
    crate::layer::order::lemma_min_above(orders, b);
    assert(lies_just_above(orders, b as int, new_layer_order_value(ids, orders, parent)));
    assert forall|i: int|
        0 <= i < ids.len() && parent == Some(#[trigger] ids[i]) && (forall|k: int|
            0 <= k < i ==> ids[k] != ids[i]) implies lies_just_above(
        orders,
        orders[i] as int,
        new_layer_order_value(ids, orders, parent),
    ) by {
        assert(is_first_index(ids, ids[i], i));
        lemma_first_index_unique(ids, ids[i], i);
    }
}

/// Whether `new_layer_order` can place a layer above `parent`: the parent is
/// among `ids`, and the two keys the new one lies between add up to at most
/// `u32::MAX`.
pub open spec fn layer_order_computable(ids: Seq<LayerId>, orders: Seq<u32>, parent: Option<LayerId>) -> bool {
    &&& parent matches Some(p) ==> ids.contains(p)
    &&& bottom_layer_order(ids, orders, parent) + top_layer_order(
        orders,
        bottom_layer_order(ids, orders, parent),
    ) <= u32::MAX
}

/// The key `new_layer_order` gives, where it can be computed; `None` otherwise.
pub fn checked_new_layer_order(ids: &Vec<LayerId>, orders: &Vec<u32>, parent: Option<LayerId>) -> (r:
    Option<u32>)
    requires
        ids.len() == orders.len(),
    ensures
        r is Some <==> layer_order_computable(ids@, orders@, parent),
        r matches Some(v) ==> v as int == new_layer_order_value(ids@, orders@, parent),
        r matches Some(v) ==> lies_just_above(
            orders@,
            bottom_layer_order(ids@, orders@, parent) as int,
            v as int,
        ),
{
    proof {
        crate::layer::order::lemma_min_above(orders@, bottom_layer_order(ids@, orders@, parent));
    }
    let bottom: u32 = match parent {
        Some(p) => {
            let mut i: usize = 0;
            while i < ids.len() && ids[i] != p
                invariant
                    i <= ids.len(),
                    forall|k: int| 0 <= k < i ==> ids@[k] != p,
                decreases ids.len() - i,
            {
                i = i + 1;
            }
            if i == ids.len() {
                proof {
                    if ids@.contains(p) {
                        let w = choose|w: int| 0 <= w < ids.len() && ids@[w] == p;
                        assert(ids@[w] != p);
                    }
                }
                return None;
            }
            proof {
                assert(ids@[i as int] == p);
                assert(is_first_index(ids@, p, i as int));
                lemma_first_index_unique(ids@, p, i as int);
            }
            orders[i]
        },
        None => 0,
    };
    let top: u64 = match find_min_above(orders, bottom) {
        Some(t) => t as u64,
        None => bottom as u64 + 2 * (LAYER_SPACING as u64),
    };
    if bottom as u64 + top > u32::MAX as u64 {
        None
    } else {
        Some(((bottom as u64 + top) / 2) as u32)
    }
}

/// A new layer lands strictly between the layer it goes above and the next layer,
/// as long as their keys are at least two apart; on top of the stack it lands
/// `LAYER_SPACING` above the layer it goes above.
pub proof fn lemma_new_layer_between(ids: Seq<LayerId>, orders: Seq<u32>, parent: Option<LayerId>)
    ensures
        ({
            let bottom = bottom_layer_order(ids, orders, parent);
            let top = top_layer_order(orders, bottom);
            &&& top > bottom + 1 ==> bottom < new_layer_order_value(ids, orders, parent) < top
            &&& min_above(orders, bottom) is None ==> new_layer_order_value(ids, orders, parent)
                == bottom + LAYER_SPACING
        }),
{
    crate::layer::order::lemma_min_above(orders, bottom_layer_order(ids, orders, parent));
}

} // verus!
