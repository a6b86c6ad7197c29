//! A minimal row-oriented store: fixed-size zeroed pages hold fixed-width
//! encoded records, addressed by row index.

pub mod commands;
pub mod layout;
pub mod page;
pub mod table;
pub mod text;
pub mod user_io;
