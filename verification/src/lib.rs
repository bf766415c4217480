pub mod cursor;
pub mod raster;
pub mod screen;
pub mod window;
