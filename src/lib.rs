pub mod quadtree;
pub mod raster;
pub mod util;
pub mod theorems;
