//! Contiguous buffers with an explicit capacity: a growable array, a growable
//! byte string and a fixed-capacity array, all built on one raw storage block
//! and one growth policy.

pub mod storage;
pub mod dynstr;
pub mod dynarr;
pub mod sarr;
