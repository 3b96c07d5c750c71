pub mod partition;
pub mod mmap;
