//! Undoable edits of layers.
//!
//! Each action records what it needs to be applied and reverted; finding the
//! layer it refers to among the entities of the world is up to the caller.

use vstd::prelude::*;

use crate::id::{is_version7_uuid, LayerId};
use crate::layer::components::{
    LayerView, bottom_layer_order, checked_new_layer_order, layer_order_computable, new_layer_order,
    new_layer_order_value, top_layer_order, Layer,
};
use crate::layer::order::{first_index, is_first_index, lemma_first_index_unique};

verus! {

/// Add a new layer right above another one (or at the bottom).
#[derive(Clone, Copy, Debug, PartialEq, Eq, Structural)]
pub struct CreateLayerAction {
    pub id: LayerId,
    pub parent_id: Option<LayerId>,
}

/// Remove a layer; reverting it adds the layer back above `parent_id`.
#[derive(Clone, Copy, Debug, PartialEq, Eq, Structural)]
pub struct DeleteLayerAction {
    pub id: LayerId,
    pub parent_id: Option<LayerId>,
}

/// Switch baking or preview of a layer on or off.
#[derive(Clone, Copy, Debug, PartialEq, Eq, Structural)]
pub struct UpdateLayerAction {
    pub layer_id: LayerId,
    pub old_enable_baking: bool,
    pub new_enable_baking: bool,
    pub old_enable_preview: bool,
    pub new_enable_preview: bool,
}

/// Give a layer a new name.
#[derive(Clone, Debug)]
pub struct RenameLayerAction {
    pub layer_id: LayerId,
    pub old_name: String,
    pub new_name: String,
}

impl CreateLayerAction {
    /// An action that adds a layer with a fresh id above `parent_id`.
    pub fn new(parent_id: Option<LayerId>) -> (r: Self)
        ensures
            r.parent_id == parent_id,
            is_version7_uuid(r.id.value()),
    {
        CreateLayerAction { id: LayerId::new(), parent_id }
    }

    /// The layer this action adds.
    pub fn layer(&self) -> (r: Layer)
        ensures
            r@.id == self.id,
            r@.name == "<unnamed>"@,
            r@.enable_baking,
            r@.enable_preview,
    {
        Layer::new(self.id)
    }

    /// The order key of the added layer, given the ids and keys of the layers
    /// that exist.
    pub fn order(&self, ids: &Vec<LayerId>, orders: &Vec<u32>) -> (r: u32)
        requires
            ids.len() == orders.len(),
            match self.parent_id {
                Some(p) => ids@.contains(p),
                None => true,
            },
            bottom_layer_order(ids@, orders@, self.parent_id) + top_layer_order(
                orders@,
                bottom_layer_order(ids@, orders@, self.parent_id),
            ) <= u32::MAX,
        ensures
            r as int == new_layer_order_value(ids@, orders@, self.parent_id),
    {
        new_layer_order(ids, orders, self.parent_id)
    }

    /// The action that undoes this one: deleting the added layer.
    pub open spec fn inverse_spec(self) -> DeleteLayerAction {
        DeleteLayerAction { id: self.id, parent_id: None }
    }

    /// The action that undoes this one: deleting the added layer.
    pub fn inverse(&self) -> (r: DeleteLayerAction)
        ensures
            r == self.inverse_spec(),
    {
        DeleteLayerAction { id: self.id, parent_id: None }
    }
}

impl DeleteLayerAction {
    pub fn new(id: LayerId, parent_id: Option<LayerId>) -> (r: Self)
        ensures
            r.id == id,
            r.parent_id == parent_id,
    {
        DeleteLayerAction { id, parent_id }
    }

    /// The action that undoes this one: adding the layer back above its parent.
    pub open spec fn inverse_spec(self) -> CreateLayerAction {
        CreateLayerAction { id: self.id, parent_id: self.parent_id }
    }

    /// The action that undoes this one: adding the layer back above its parent.
    pub fn inverse(&self) -> (r: CreateLayerAction)
        ensures
            r == self.inverse_spec(),
    {
        CreateLayerAction { id: self.id, parent_id: self.parent_id }
    }
}

impl UpdateLayerAction {
    /// The layer as this action leaves it.
    pub open spec fn applied(self, layer: LayerView) -> LayerView {
        layer.with_switches(self.new_enable_baking, self.new_enable_preview)
    }

    /// An action that flips baking of `layer`.
    pub fn toggle_enable_baking(layer: &Layer) -> (r: Self)
        ensures
            r == (UpdateLayerAction {
                layer_id: layer@.id,
                old_enable_baking: layer@.enable_baking,
                new_enable_baking: !layer@.enable_baking,
                old_enable_preview: layer@.enable_preview,
                new_enable_preview: layer@.enable_preview,
            }),
    {
        UpdateLayerAction {
            layer_id: layer.id(),
            old_enable_baking: layer.enable_baking(),
            new_enable_baking: !layer.enable_baking(),
            old_enable_preview: layer.enable_preview(),
            new_enable_preview: layer.enable_preview(),
        }
    }

    /// An action that flips preview of `layer`.
    pub fn toggle_enable_preview(layer: &Layer) -> (r: Self)
        ensures
            r == (UpdateLayerAction {
                layer_id: layer@.id,
                old_enable_baking: layer@.enable_baking,
                new_enable_baking: layer@.enable_baking,
                old_enable_preview: layer@.enable_preview,
                new_enable_preview: !layer@.enable_preview,
            }),
    {
        UpdateLayerAction {
            layer_id: layer.id(),
            old_enable_baking: layer.enable_baking(),
            new_enable_baking: layer.enable_baking(),
            old_enable_preview: layer.enable_preview(),
            new_enable_preview: !layer.enable_preview(),
        }
    }

    /// Set the switches of the layer this action refers to.
    pub fn apply_to(&self, layer: &mut Layer)
        ensures
            final(layer)@ == self.applied(old(layer)@),
    {
        layer.set_switches(self.new_enable_baking, self.new_enable_preview);
    }

    /// The action that undoes this one.
    pub fn reversed(&self) -> (r: Self)
        ensures
            r == (UpdateLayerAction {
                layer_id: self.layer_id,
                old_enable_baking: self.new_enable_baking,
                new_enable_baking: self.old_enable_baking,
                old_enable_preview: self.new_enable_preview,
                new_enable_preview: self.old_enable_preview,
            }),
    {
        UpdateLayerAction {
            layer_id: self.layer_id,
            old_enable_baking: self.new_enable_baking,
            new_enable_baking: self.old_enable_baking,
            old_enable_preview: self.new_enable_preview,
            new_enable_preview: self.old_enable_preview,
        }
    }

    /// Revert this action on the layer it refers to.
    pub fn revert_on(&self, layer: &mut Layer)
        ensures
            final(layer)@ == self.reversed_spec().applied(old(layer)@),
    {
        let reverse_action = self.reversed();
        reverse_action.apply_to(layer);
    }

    pub open spec fn reversed_spec(self) -> UpdateLayerAction {
        UpdateLayerAction {
            layer_id: self.layer_id,
            old_enable_baking: self.new_enable_baking,
            new_enable_baking: self.old_enable_baking,
            old_enable_preview: self.new_enable_preview,
            new_enable_preview: self.old_enable_preview,
        }
    }
}

/// Applying a switch update to a layer whose switches are the recorded old ones,
/// and then reverting it, gives back the same layer.
pub proof fn lemma_update_layer_roundtrip(action: UpdateLayerAction, layer: LayerView)
    requires
        layer.enable_baking == action.old_enable_baking,
        layer.enable_preview == action.old_enable_preview,
    ensures
        action.reversed_spec().applied(action.applied(layer)) == layer,
        action.reversed_spec().reversed_spec() == action,
        action.applied(layer).id == layer.id,
        action.applied(layer).name == layer.name,
{
}

/// Reverting the creation of a layer deletes that same layer; reverting the
/// deletion of a layer creates it again above the same parent, and reverting
/// that deletes it again.
pub proof fn lemma_create_delete_inverse(create: CreateLayerAction, delete: DeleteLayerAction)
    ensures
        create.inverse_spec().id == create.id,
        delete.inverse_spec().id == delete.id,
        delete.inverse_spec().parent_id == delete.parent_id,
        delete.inverse_spec().inverse_spec().id == delete.id,
        create.inverse_spec().inverse_spec().id == create.id,
{
}

impl RenameLayerAction {
    /// The layer as this action leaves it.
    pub open spec fn applied(self, layer: LayerView) -> LayerView {
        LayerView { name: self.new_name@, ..layer }
    }

    /// The layer as reverting this action leaves it.
    pub open spec fn reverted(self, layer: LayerView) -> LayerView {
        LayerView { name: self.old_name@, ..layer }
    }

    pub fn new(layer_id: LayerId, old_name: String, new_name: String) -> (r: Self)
        ensures
            r.layer_id == layer_id,
            r.old_name@ == old_name@,
            r.new_name@ == new_name@,
    {
        RenameLayerAction { layer_id, old_name, new_name }
    }

    /// Give the layer the new name (the old one when `reversed`); the layer is
    /// expected to carry the other name.
    pub fn rename(&self, layer: &mut Layer, reversed: bool)
        requires
            old(layer)@.name == if reversed {
                self.new_name@
            } else {
                self.old_name@
            },
        ensures
            final(layer)@.name == if reversed {
                self.old_name@
            } else {
                self.new_name@
            },
            final(layer)@.id == old(layer)@.id,
            final(layer)@.enable_baking == old(layer)@.enable_baking,
            final(layer)@.enable_preview == old(layer)@.enable_preview,
    {
        let new_name = if reversed {
            self.old_name.clone()
        } else {
            self.new_name.clone()
        };
        layer.set_name(new_name);
    }

    /// Rename the layer from the old name to the new one.
    pub fn apply_to(&self, layer: &mut Layer)
        requires
            old(layer)@.name == self.old_name@,
        ensures
            final(layer)@ == self.applied(old(layer)@),
    {
        self.rename(layer, false);
    }

    /// Rename the layer back from the new name to the old one.
    pub fn revert_on(&self, layer: &mut Layer)
        requires
            old(layer)@.name == self.new_name@,
        ensures
            final(layer)@ == self.reverted(old(layer)@),
    {
        self.rename(layer, true);
    }
}

/// Renaming a layer that carries the old name and then reverting the rename
/// gives back the same layer; only the name changes in between.
pub proof fn lemma_rename_roundtrip(action: RenameLayerAction, layer: LayerView)
    requires
        layer.name == action.old_name@,
    ensures
        action.applied(layer).name == action.new_name@,
        action.reverted(action.applied(layer)) == layer,
        action.applied(layer).id == layer.id,
        action.applied(layer).enable_baking == layer.enable_baking,
        action.applied(layer).enable_preview == layer.enable_preview,
{
}

/// The ids of a stack of layers given as `(id, key)` pairs.
pub open spec fn stack_ids(layers: Seq<(LayerId, u32)>) -> Seq<LayerId> {
    layers.map_values(|e: (LayerId, u32)| e.0)
}

/// The keys of a stack of layers given as `(id, key)` pairs.
pub open spec fn stack_keys(layers: Seq<(LayerId, u32)>) -> Seq<u32> {
    layers.map_values(|e: (LayerId, u32)| e.1)
}

impl CreateLayerAction {
    /// The stack after this action: a layer with the action's id is added with
    /// the key `order` gives.
    pub open spec fn applied_to(self, layers: Seq<(LayerId, u32)>) -> Seq<(LayerId, u32)> {
        layers.push(
            (
                self.id,
                new_layer_order_value(stack_ids(layers), stack_keys(layers), self.parent_id) as u32,
            ),
        )
    }
}

impl DeleteLayerAction {
    /// The stack after this action: the layers with the action's id are gone.
    pub open spec fn applied_to(self, layers: Seq<(LayerId, u32)>) -> Seq<(LayerId, u32)> {
        layers.filter(|e: (LayerId, u32)| e.0 != self.id)
    }
}

proof fn lemma_filter_keeps_other_ids(layers: Seq<(LayerId, u32)>, id: LayerId)
    requires
        !stack_ids(layers).contains(id),
    ensures
        layers.filter(|e: (LayerId, u32)| e.0 != id) == layers,
    decreases layers.len(),
{
    if layers.len() > 0 {
        let rest = layers.drop_last();
        assert(!stack_ids(rest).contains(id)) by {
            if stack_ids(rest).contains(id) {
                let w = choose|w: int| 0 <= w < stack_ids(rest).len() && stack_ids(rest)[w] == id;
                assert(stack_ids(layers)[w] == id);
            }
        }
        lemma_filter_keeps_other_ids(rest, id);
        assert(stack_ids(layers)[layers.len() - 1] == layers.last().0);
        rest.lemma_filter_push(layers.last(), |e: (LayerId, u32)| e.0 != id);
        assert(rest.push(layers.last()) =~= layers);
    }
}

/// Creating a layer with a fresh id and then reverting the creation leaves the
/// stack of layers exactly as it was.
pub proof fn lemma_create_then_revert(layers: Seq<(LayerId, u32)>, action: CreateLayerAction)
    requires
        !stack_ids(layers).contains(action.id),
    ensures
        stack_ids(action.applied_to(layers)).contains(action.id),
        action.inverse_spec().applied_to(action.applied_to(layers)) == layers,
{
    let after = action.applied_to(layers);
    assert(stack_ids(after)[layers.len() as int] == action.id);
    let pred = |e: (LayerId, u32)| e.0 != action.id;
    layers.lemma_filter_push(after.last(), pred);
    assert(layers.push(after.last()) =~= after);
    lemma_filter_keeps_other_ids(layers, action.id);
}

/// Deleting a layer and then reverting the deletion brings a layer with that
/// id back and keeps every other layer.
pub proof fn lemma_delete_then_revert(layers: Seq<(LayerId, u32)>, action: DeleteLayerAction, other: (
    LayerId,
    u32,
))
    requires
        layers.contains(other),
        other.0 != action.id,
    ensures
        stack_ids(action.inverse_spec().applied_to(action.applied_to(layers))).contains(action.id),
        action.inverse_spec().applied_to(action.applied_to(layers)).contains(other),
{
    let kept = action.applied_to(layers);
    let back = action.inverse_spec().applied_to(kept);
    assert(stack_ids(back)[kept.len() as int] == action.id);
    let i = choose|i: int| 0 <= i < layers.len() && layers[i] == other;
    layers.lemma_filter_contains(|e: (LayerId, u32)| e.0 != action.id, i);
    let j = choose|j: int| 0 <= j < kept.len() && kept[j] == other;
    assert(back[j] == other);
}

/// The ids and the keys of a stack, as two vectors.
fn split_stack(stack: &Vec<(LayerId, u32)>) -> (r: (Vec<LayerId>, Vec<u32>))
    ensures
        r.0@ == stack_ids(stack@),
        r.1@ == stack_keys(stack@),
{
    let mut ids: Vec<LayerId> = Vec::new();
    let mut keys: Vec<u32> = Vec::new();
    let mut i: usize = 0;
    while i < stack.len()
        invariant
            i <= stack.len(),
            ids@ == stack_ids(stack@.take(i as int)),
            keys@ == stack_keys(stack@.take(i as int)),
        decreases stack.len() - i,
    {
        let (id, key) = stack[i];
        ids.push(id);
        keys.push(key);
        i = i + 1;
        assert(ids@ =~= stack_ids(stack@.take(i as int)));
        assert(keys@ =~= stack_keys(stack@.take(i as int)));
    }
    assert(stack@.take(stack.len() as int) =~= stack@);
    (ids, keys)
}

impl CreateLayerAction {
    /// Add the new layer to a stack given as `(id, key)` pairs, and give its
    /// key; `None`, with the stack unchanged, when the key cannot be computed
    /// (the parent is missing or the keys would overflow).
    pub fn apply_to_stack(&self, stack: &mut Vec<(LayerId, u32)>) -> (r: Option<u32>)
        ensures
            r is Some <==> layer_order_computable(
                stack_ids(old(stack)@),
                stack_keys(old(stack)@),
                self.parent_id,
            ),
            r matches Some(key) ==> {
                &&& final(stack)@ == self.applied_to(old(stack)@)
                &&& key as int == new_layer_order_value(
                    stack_ids(old(stack)@),
                    stack_keys(old(stack)@),
                    self.parent_id,
                )
            },
            r is None ==> final(stack)@ == old(stack)@,
    {
        let (ids, keys) = split_stack(stack);
        match checked_new_layer_order(&ids, &keys, self.parent_id) {
            Some(key) => {
                stack.push((self.id, key));
                Some(key)
            },
            None => None,
        }
    }
}

impl DeleteLayerAction {
    /// Remove the layers with the action's id from a stack given as `(id, key)`
    /// pairs.
    pub fn apply_to_stack(&self, stack: &mut Vec<(LayerId, u32)>)
        ensures
            final(stack)@ == self.applied_to(old(stack)@),
    {
        let ghost pred = |e: (LayerId, u32)| e.0 != self.id;
        let mut kept: Vec<(LayerId, u32)> = Vec::new();
        let mut i: usize = 0;
        assert(stack@.take(0).filter(pred) =~= Seq::<(LayerId, u32)>::empty()) by {
            reveal(Seq::filter);
        }
        while i < stack.len()
            invariant
                i <= stack.len(),
                pred == (|e: (LayerId, u32)| e.0 != self.id),
                kept@ == stack@.take(i as int).filter(pred),
            decreases stack.len() - i,
        {
            let e = stack[i];
            proof {
                stack@.take(i as int).lemma_filter_push(e, pred);
                assert(stack@.take(i as int).push(e) =~= stack@.take(i + 1));
            }
            if e.0 != self.id {
                kept.push(e);
            }
            i = i + 1;
        }
        assert(stack@.take(stack.len() as int) =~= stack@);
        *stack = kept;
    }
}

/// Swap the places of two layers in the stack by swapping their keys.
#[derive(Clone, Copy, Debug, PartialEq, Eq, Structural)]
pub struct SwitchLayerPositionsAction(pub LayerId, pub LayerId);

impl SwitchLayerPositionsAction {
    /// The stack after this action: when both layers are in it, the first layer
    /// with each id takes the other's key; otherwise nothing changes.
    pub open spec fn applied_to(self, layers: Seq<(LayerId, u32)>) -> Seq<(LayerId, u32)> {
        let ids = stack_ids(layers);
        if ids.contains(self.0) && ids.contains(self.1) {
            let i = first_index(ids, self.0);
            let j = first_index(ids, self.1);
            layers.update(i, (layers[i].0, layers[j].1)).update(j, (layers[j].0, layers[i].1))
        } else {
            layers
        }
    }

    /// Swap the keys of the two layers in a stack given as `(id, key)` pairs;
    /// `false`, with the stack unchanged, when one of them is missing.
    pub fn apply_to_stack(&self, stack: &mut Vec<(LayerId, u32)>) -> (r: bool)
        ensures
            r == (stack_ids(old(stack)@).contains(self.0) && stack_ids(old(stack)@).contains(
                self.1,
            )),
            final(stack)@ == self.applied_to(old(stack)@),
    {
        let i = find_layer(stack, self.0);
        let j = find_layer(stack, self.1);
        match (i, j) {
            (Some(i), Some(j)) => {
                let a = stack[i];
                let b = stack[j];
                stack.set(i, (a.0, b.1));
                stack.set(j, (b.0, a.1));
                true
            },
            _ => false,
        }
    }
}

/// The first position of the layer with the given id.
fn find_layer(stack: &Vec<(LayerId, u32)>, id: LayerId) -> (r: Option<usize>)
    ensures
        match r {
            Some(i) => stack_ids(stack@).contains(id) && i as int == first_index(
                stack_ids(stack@),
                id,
            ) && i < stack.len(),
            None => !stack_ids(stack@).contains(id),
        },
{
    let ghost ids = stack_ids(stack@);
    let mut i: usize = 0;
    while i < stack.len()
        invariant
            i <= stack.len(),
            ids == stack_ids(stack@),
            forall|k: int| 0 <= k < i ==> ids[k] != id,
        decreases stack.len() - i,
    {
        if stack[i].0 == id {
            proof {
                assert(ids[i as int] == id);
                assert(is_first_index(ids, id, i as int));
                lemma_first_index_unique(ids, id, i as int);
            }
            return Some(i);
        }
        i = i + 1;
    }
    proof {
        if ids.contains(id) {
            let w = choose|w: int| 0 <= w < ids.len() && ids[w] == id;
            assert(ids[w] != id);
        }
    }
    None
}

/// Switching two layers and switching them again gives the stack back: the
/// action is its own inverse.
pub proof fn lemma_switch_twice(layers: Seq<(LayerId, u32)>, action: SwitchLayerPositionsAction)
    ensures
        action.applied_to(action.applied_to(layers)) == layers,
        stack_ids(action.applied_to(layers)) == stack_ids(layers),
{
    let ids = stack_ids(layers);
    if ids.contains(action.0) && ids.contains(action.1) {
        let i = first_index(ids, action.0);
        let j = first_index(ids, action.1);
        crate::layer::order::lemma_first_index_exists(ids, action.0);
        crate::layer::order::lemma_first_index_exists(ids, action.1);
        let once = action.applied_to(layers);
        assert(stack_ids(once) =~= ids);
        let twice = action.applied_to(once);
        assert(twice =~= layers);
    } else {
    }
}

/// Deleting a layer removes every layer with its id from the stack, wherever it
/// stands, and keeps every other layer, in the same order: the stack that is
/// left is the old one without those layers.
pub proof fn lemma_delete_removes_the_layer(layers: Seq<(LayerId, u32)>, action: DeleteLayerAction)
    ensures
        !stack_ids(action.applied_to(layers)).contains(action.id),
        forall|i: int|
            0 <= i < layers.len() && #[trigger] layers[i].0 != action.id ==> action.applied_to(
                layers,
            ).contains(layers[i]),
        forall|e: (LayerId, u32)| #[trigger] action.applied_to(layers).contains(e) ==> layers.contains(e),
        keeps_relative_order(action.applied_to(layers), layers),
    decreases layers.len(),
{
    let pred = |e: (LayerId, u32)| e.0 != action.id;
    let kept = action.applied_to(layers);
    if layers.len() == 0 {
        assert(kept =~= layers) by {
            reveal(Seq::filter);
        }
        assert(kept.len() == 0);
        let f = |i: int| i;
        assert(places_in_order(f, kept, layers));
    } else {
        let rest = layers.drop_last();
        let last = layers.last();
        lemma_delete_removes_the_layer(rest, action);
        rest.lemma_filter_push(last, pred);
        assert(rest.push(last) =~= layers);
        let kept_rest = action.applied_to(rest);
        assert forall|i: int|
            0 <= i < layers.len() && #[trigger] layers[i].0 != action.id implies kept.contains(
            layers[i],
        ) by {
            if i < rest.len() {
                assert(rest[i] == layers[i]);
                let w = choose|w: int| 0 <= w < kept_rest.len() && kept_rest[w] == rest[i];
                assert(kept[w] == layers[i]);
            } else {
                assert(kept[kept.len() - 1] == layers[i]);
            }
        }
        assert forall|e: (LayerId, u32)| #[trigger] kept.contains(e) implies layers.contains(e) by {
            let w = choose|w: int| 0 <= w < kept.len() && kept[w] == e;
            if w < kept_rest.len() {
                assert(kept_rest[w] == e);
                assert(kept_rest.contains(e));
                let v = choose|v: int| 0 <= v < rest.len() && rest[v] == e;
                assert(layers[v] == e);
            } else {
                assert(e == last);
                assert(layers[layers.len() - 1] == e);
            }
        }
        let f = choose|f: spec_fn(int) -> int| places_in_order(f, kept_rest, rest);
        let g = |i: int| if i < kept_rest.len() { f(i) } else { rest.len() as int };
        if pred(last) {
            assert(kept == kept_rest.push(last));
        } else {
            assert(kept == kept_rest);
        }
        assert forall|i: int| 0 <= i < kept.len() implies 0 <= #[trigger] g(i) < layers.len()
            && layers[g(i)] == kept[i] by {
            if i < kept_rest.len() {
                assert(rest[f(i)] == kept_rest[i]);
            }
        }
        assert forall|i: int, j: int| 0 <= i < j < kept.len() implies #[trigger] g(i) < #[trigger] g(j) by {
            if j < kept_rest.len() {
                assert(f(i) < f(j));
            } else {
                assert(0 <= f(i) < rest.len());
            }
        }
        assert(places_in_order(g, kept, layers));
        assert(!stack_ids(kept).contains(action.id)) by {
            if stack_ids(kept).contains(action.id) {
                let w = choose|w: int| 0 <= w < stack_ids(kept).len() && stack_ids(kept)[w] == action.id;
                if w < kept_rest.len() {
                    assert(stack_ids(kept_rest)[w] == action.id);
                }
            }
        }
    }
}

/// `f` sends each position of `part` to a position of `whole` that holds the same
/// entry, and later positions to later ones.
pub open spec fn places_in_order(
    f: spec_fn(int) -> int,
    part: Seq<(LayerId, u32)>,
    whole: Seq<(LayerId, u32)>,
) -> bool {
    &&& forall|i: int| 0 <= i < part.len() ==> 0 <= #[trigger] f(i) < whole.len() && whole[f(i)] == part[i]
    &&& forall|i: int, j: int| 0 <= i < j < part.len() ==> #[trigger] f(i) < #[trigger] f(j)
}

/// `part` is made of entries of `whole` taken in the order in which they stand there.
pub open spec fn keeps_relative_order(part: Seq<(LayerId, u32)>, whole: Seq<(LayerId, u32)>) -> bool {
    exists|f: spec_fn(int) -> int| places_in_order(f, part, whole)
}

} // verus!
