pub mod data_link_layer;
pub mod physical_layer;
pub mod utils;

pub use utils::{bit, bit_string, corruption_type, mac_address, rand, word};
