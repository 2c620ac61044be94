//! Turns a grayscale picture into a mosaic of six die-face tiles.
//!
//! The picture is cut into a grid of tile-sized cells; each cell's mean
//! brightness picks one of six faces, and that face's tile is copied into
//! the output canvas. The result can then be fitted into a target size.

pub mod dice;
pub mod fit;
pub mod mosaic;
pub mod order;
pub mod raster;
pub mod resample;
pub mod tiles;

pub use dice::{map_intensity_to_dice_side, DiceSides};
pub use fit::{fit, fit_size, FitError};
pub use mosaic::{cell_average, classify_cells, composite, Mosaic, MosaicError};
pub use order::{name_le, tile_file_order};
pub use raster::{prepare_source, Canvas, Source};
pub use tiles::{build_tile_set, check_tile_count, Dice, TileError, TileSet};
