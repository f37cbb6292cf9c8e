//! Integer core of a Monte Carlo path tracer: bounded random draws, Perlin
//! lattice permutations, image texel addressing, bounding-volume hierarchy
//! partitioning and the split of an image into row bands for workers.
pub mod bvh;
pub mod perlin;
pub mod rtweekend;
pub mod seqs;
pub mod texture;
pub mod tiles;
