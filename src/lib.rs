//! Conway's Game of Life: a padded grid of cells and its generation-by-generation
//! update, with contracts over a sequence-of-rows model of the grid.
pub mod conway;
pub mod evolution;
