pub mod bit;
pub mod bit_string;
pub mod corruption_type;
pub mod mac_address;
pub mod rand;
pub mod word;
