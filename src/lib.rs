//! A software rasterizer's verified core: pixel and color types, images and
//! their PPM text form, OBJ face records, the scene file's XML-like grammar,
//! and the integer coverage rules of triangle rasterization.
pub mod image;
pub mod math;
pub mod mesh;
pub mod text;
pub mod scene;
pub mod raster;
