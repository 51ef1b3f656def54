pub mod board;
pub mod board_pos;
pub mod board_size;
pub mod divide_and_conquer;
pub mod field_size;
pub mod knight;
pub mod move_graph;
pub mod tour;
pub mod warnsdorff;
