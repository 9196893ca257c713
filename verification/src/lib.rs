//! Building blocks of two small arcade games, with their rules proved.
pub mod bits;
pub mod form;
pub mod rendering;
pub mod snake;
pub mod tetromino;
pub mod turning;
