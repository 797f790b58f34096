pub mod balance;
pub mod filter;
pub mod instruction;
pub mod item_filter;
pub mod model;
pub mod relation_mask;
pub mod render;
pub mod selected_items;
pub mod token_balance;
pub mod transaction;
pub mod util;
