//! The simple filesystem: on-disk layout, block devices and the filesystem itself.
use vstd::prelude::*;

pub mod codec;
pub mod layout;
pub mod block_dev;
pub mod disk_handler;
pub mod simple_fs;

verus! {

} // verus!
