//! A juice bar's dispatch core: a FIFO queue of orders served by a fixed set
//! of blenders, advanced one tick at a time.

pub mod blender;
pub mod clock;
pub mod error;
pub mod history;
pub mod order;
pub mod queue;
pub mod store;
