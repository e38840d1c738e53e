pub mod bit_board;
pub mod opening_book;
pub mod position;
pub mod position_factory;
pub mod reader;
pub mod solver;
pub mod transposition_table;
