//! A software 3D renderer's integer core: the frame buffer and its rasterizer (pixels,
//! Bresenham lines, edge-function triangle fill), mesh geometry and its OBJ text lines, and the
//! component types that objects carry.

pub mod component;
pub mod math_utils;
pub mod raster;
pub mod renderer;
