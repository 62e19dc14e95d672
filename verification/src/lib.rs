//! A toroidal Game-of-Life stepping engine, with seed patterns, an RLE
//! pattern decoder, and a small set of image-processing kernels that reuse
//! the same partitioning idioms.
//!
//! The grid model lives in [`game_of_life`]; the interchangeable stepping
//! strategies (serial, static band partition, dynamic chunk queue, persistent
//! pool) live under [`implementations`]. All of them are proved to produce
//! the same successor generation, pinned down by the spec function
//! [`game_of_life::successor`]; partitioning never affects the result, only
//! its schedule. [`seed`] and [`rle`] populate grids; [`invert`], [`rotate`]
//! and [`blur`] are the verified computations of the picture processes, and
//! [`strategy`] partitions an image into the units of work of
//! [`thread_data`].

pub mod blur;
pub mod effect;
pub mod game_of_life;
pub mod image_array;
pub mod implementations;
pub mod invert;
pub mod rle;
pub mod rotate;
pub mod seed;
pub mod strategy;
pub mod thread_data;
