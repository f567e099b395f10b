pub mod astar;
pub mod grid;

pub use astar::find_path;
pub use grid::PathGrid;
