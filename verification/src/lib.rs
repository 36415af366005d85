//! Verified core of the katara water-simulation viewer: the CPU spatial hash
//! grid, fixed-timestep scheduling and frame starts, the debug watch table
//! and debug text, profiling history and the GPU timing tree, overlay line
//! budgeting, GPU dispatch bookkeeping, and the input state machines.

pub mod pipeline;
pub mod spatial_grid;
pub mod stepping;
pub mod text;
pub mod debug_watch;
pub mod profiler;
pub mod overlay;
pub mod input;
pub mod gui;
pub mod frame;
pub mod dispatch;
pub mod timing_tree;
