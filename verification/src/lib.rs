use vstd::prelude::*;

pub mod utils;
pub mod mem;
pub mod proc;
pub mod io;
pub mod user;
pub mod trap;
pub mod syscall;
pub mod shell;
pub mod virtio;
pub mod boot;
pub mod walk;
