use yer::id::{LayerId, MaskId};
use yer::layer::{
    checked_new_layer_order, checked_new_mask_order,
    initial_layer_orders, layers_in_order, new_layer_order, new_mask_order, normalize_layer_orders,
    normalize_mask_orders, CreateLayerAction, DeleteLayerAction, Layer, RenameLayerAction,
    SwitchLayerPositionsAction,
    UpdateLayerAction, LAYER_SPACING,
};

const A: u128 = 0x0192bf46_8e52_7dc5_b6f5_05bc9ae3aaa3;
const B: u128 = 0x0192bf47_0c63_79a3_983c_92445e2b56a9;

#[test]
fn add_new_layer_on_top() {
    let ids: Vec<LayerId> = vec![];
    let orders: Vec<u32> = vec![];
    let action = CreateLayerAction::new(None);
    let order = action.order(&ids, &orders);
    assert_eq!(order, LAYER_SPACING);
    let layer = action.layer();
    assert_eq!(layer.id(), action.id);
}

#[test]
fn add_new_layer_in_between() {
    const FIRST_LAYER_ORDER: u32 = 3000;
    let ids = vec![LayerId::from_u128(A), LayerId::from_u128(B)];
    let orders = vec![FIRST_LAYER_ORDER, FIRST_LAYER_ORDER + LAYER_SPACING];
    let action = CreateLayerAction::new(Some(ids[0]));
    let order = action.order(&ids, &orders);
    assert!(order > FIRST_LAYER_ORDER);
    assert!(order < FIRST_LAYER_ORDER + LAYER_SPACING);
    assert_eq!(order, 3050);
}

#[test]
fn new_layer_above_the_top_layer_goes_one_spacing_higher() {
    let ids = vec![LayerId::from_u128(A), LayerId::from_u128(B)];
    let orders = vec![100, 200];
    assert_eq!(new_layer_order(&ids, &orders, Some(ids[1])), 300);
}

#[test]
fn new_layer_without_parent_goes_below_the_bottom_layer() {
    let ids = vec![LayerId::from_u128(A)];
    let orders = vec![100];
    assert_eq!(new_layer_order(&ids, &orders, None), 50);
}

#[test]
fn normalization_renumbers_in_order() {
    let orders = vec![3050, 3000, 3100, 3000];
    assert_eq!(normalize_layer_orders(&orders), vec![300, 100, 400, 200]);
    assert_eq!(normalize_layer_orders(&vec![]), Vec::<u32>::new());
}

#[test]
fn initial_orders_start_at_zero() {
    assert_eq!(initial_layer_orders(4), vec![0, 100, 200, 300]);
}

#[test]
fn masks_of_one_layer_are_renumbered_alone() {
    let orders = vec![50, 700, 25, 10];
    let parents = vec![1u64, 2, 1, 2];
    assert_eq!(normalize_mask_orders(&orders, &parents, 1), vec![200, 700, 100, 10]);
    assert_eq!(normalize_mask_orders(&orders, &parents, 2), vec![50, 200, 25, 100]);
}

#[test]
fn new_mask_goes_half_way_to_the_highest_mask_above() {
    let ids = vec![MaskId::from_u128(A), MaskId::from_u128(B), MaskId::from_u128(7)];
    let orders = vec![100, 200, 300];
    assert_eq!(new_mask_order(&ids, &orders, Some(ids[0])), 200);
    assert_eq!(new_mask_order(&ids, &orders, Some(ids[2])), 400);
    assert_eq!(new_mask_order(&ids, &orders, None), 150);
}

#[test]
fn layer_names_use_the_last_digits_of_the_id() {
    let layer = Layer::new(LayerId::from_u128(A));
    assert_eq!(layer.name_component(), "Layer 0xae3aaa3");
    assert_eq!(layer.to_display_string(), "ae3aaa3");
    assert_eq!(layer.name().as_str(), "<unnamed>");
    assert!(layer.enable_baking());
    assert!(layer.enable_preview());
    assert_eq!(LayerId::from_u128(A).to_simple_string(), "0192bf468e527dc5b6f505bc9ae3aaa3");
}

#[test]
fn fresh_layer_ids_are_version_7() {
    let id = LayerId::new();
    assert_eq!((id.as_u128() >> 76) & 0xf, 7);
    assert_eq!((id.as_u128() >> 62) & 0x3, 2);
    let other = Layer::default();
    assert_ne!(other.id(), id);
}

#[test]
fn toggling_baking_and_reverting_restores_the_layer() {
    let mut layer = Layer::new(LayerId::from_u128(A));
    let action = UpdateLayerAction::toggle_enable_baking(&layer);
    action.apply_to(&mut layer);
    assert!(!layer.enable_baking());
    assert!(layer.enable_preview());
    action.revert_on(&mut layer);
    assert!(layer.enable_baking());
    let action = UpdateLayerAction::toggle_enable_preview(&layer);
    action.apply_to(&mut layer);
    assert!(!layer.enable_preview());
    assert_eq!(action.reversed().reversed(), action);
}

#[test]
fn renaming_and_reverting() {
    let mut layer = Layer::new(LayerId::from_u128(B));
    let action = RenameLayerAction::new(layer.id(), "<unnamed>".to_string(), "Hills".to_string());
    action.apply_to(&mut layer);
    assert_eq!(layer.name().as_str(), "Hills");
    action.revert_on(&mut layer);
    assert_eq!(layer.name().as_str(), "<unnamed>");
}

#[test]
fn create_and_delete_undo_each_other() {
    let parent = LayerId::from_u128(A);
    let create = CreateLayerAction::new(Some(parent));
    let delete = create.inverse();
    assert_eq!(delete, DeleteLayerAction::new(create.id, None));
    let delete = DeleteLayerAction::new(LayerId::from_u128(B), Some(parent));
    assert_eq!(delete.inverse(), CreateLayerAction { id: LayerId::from_u128(B), parent_id: Some(parent) });
}

#[test]
fn layers_are_listed_bottom_first_with_ties_in_given_order() {
    assert_eq!(layers_in_order(&vec![300, 100, 200, 100]), vec![1, 3, 2, 0]);
    assert_eq!(layers_in_order(&vec![]), Vec::<usize>::new());
}

#[test]
fn checked_layer_orders_refuse_unknown_parents_and_overflow() {
    let ids = vec![LayerId::from_u128(A), LayerId::from_u128(B)];
    let orders = vec![100, 200];
    assert_eq!(checked_new_layer_order(&ids, &orders, Some(ids[0])), Some(150));
    assert_eq!(checked_new_layer_order(&ids, &orders, None), Some(50));
    assert_eq!(checked_new_layer_order(&ids, &orders, Some(LayerId::from_u128(7))), None);
    let high = vec![100, u32::MAX - 50];
    assert_eq!(checked_new_layer_order(&ids, &high, Some(ids[1])), None);
}

#[test]
fn checked_mask_orders_refuse_unknown_masks_and_overflow() {
    let ids = vec![MaskId::from_u128(A), MaskId::from_u128(B)];
    let orders = vec![100, 300];
    assert_eq!(checked_new_mask_order(&ids, &orders, Some(ids[0])), Some(200));
    assert_eq!(checked_new_mask_order(&ids, &orders, Some(ids[1])), Some(400));
    assert_eq!(checked_new_mask_order(&ids, &orders, Some(MaskId::from_u128(9))), None);
    let high = vec![u32::MAX - 10, 5];
    assert_eq!(checked_new_mask_order(&ids, &high, Some(ids[0])), None);
}

#[test]
fn layers_inserted_with_initial_keys_are_listed_back_in_order() {
    let orders = initial_layer_orders(5);
    assert_eq!(layers_in_order(&orders), vec![0, 1, 2, 3, 4]);
}

#[test]
fn mask_renumbering_bounds_only_the_layer_s_own_masks() {
    let orders = vec![500, 20, 300];
    let parents = vec![1, 2, 1];
    assert_eq!(normalize_mask_orders(&orders, &parents, 1), vec![200, 20, 100]);
}

#[test]
fn layer_edits_on_the_stack_undo_each_other() {
    let a = LayerId::from_u128(A);
    let b = LayerId::from_u128(B);
    let mut stack = vec![(a, 100), (b, 200)];
    let create = CreateLayerAction { id: LayerId::from_u128(7), parent_id: Some(a) };
    assert_eq!(create.apply_to_stack(&mut stack), Some(150));
    assert_eq!(stack, vec![(a, 100), (b, 200), (LayerId::from_u128(7), 150)]);
    create.inverse().apply_to_stack(&mut stack);
    assert_eq!(stack, vec![(a, 100), (b, 200)]);
    let missing = CreateLayerAction { id: LayerId::from_u128(8), parent_id: Some(LayerId::from_u128(9)) };
    assert_eq!(missing.apply_to_stack(&mut stack), None);
    assert_eq!(stack.len(), 2);
}

#[test]
fn switching_layers_swaps_their_keys_and_back() {
    let a = LayerId::from_u128(A);
    let b = LayerId::from_u128(B);
    let mut stack = vec![(a, 100), (b, 200)];
    let switch = SwitchLayerPositionsAction(a, b);
    assert!(switch.apply_to_stack(&mut stack));
    assert_eq!(stack, vec![(a, 200), (b, 100)]);
    assert!(switch.apply_to_stack(&mut stack));
    assert_eq!(stack, vec![(a, 100), (b, 200)]);
    assert!(!SwitchLayerPositionsAction(a, LayerId::from_u128(3)).apply_to_stack(&mut stack));
    assert_eq!(stack, vec![(a, 100), (b, 200)]);
}
