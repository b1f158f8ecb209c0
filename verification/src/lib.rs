pub mod bitme;
pub mod cell;
pub mod cell_laws;
pub mod decode;
pub mod digest;
pub mod discovery;
pub mod feed;
pub mod feed_laws;
pub mod health;
pub mod hex_text;
pub mod id_table;
pub mod int_math;
pub mod interest;
pub mod json;
pub mod le_bytes;
pub mod mirror;
pub mod name_table;
pub mod rfc3339;
pub mod roads;
pub mod schema;
pub mod service;
pub mod shared_map;
pub mod sorted;
pub mod stable;
pub mod text;
pub mod text_index;
pub mod text_order;
pub mod touches;
pub mod url_text;
