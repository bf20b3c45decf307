//! Layers of the height map and their masks.

pub mod actions;
pub mod components;
pub mod mask;
pub mod order;

pub use actions::{
    CreateLayerAction, DeleteLayerAction, RenameLayerAction, SwitchLayerPositionsAction,
    UpdateLayerAction,
};
pub use components::{
    checked_new_layer_order, initial_layer_orders, layers_in_order, new_layer_order, normalize_layer_orders, Layer, LayerOrder,
    HEIGHT_RANGE_MAX, HEIGHT_RANGE_MIN, LAYER_SPACING,
};
pub use mask::{checked_new_mask_order, new_mask_order, normalize_mask_orders, Mask, MaskOrder, MASK_SPACING};
