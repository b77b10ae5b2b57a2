//! Pistachio Dictionary: the logic of an offline Chinese–English dictionary
//! with ordered word lists that sync to the Bingqilin service.

pub mod db;
pub mod error;
pub mod lists;
pub mod search;
pub mod sync;
pub mod text;
