//! A local text-search engine on the bytes of files: ordered search, count
//! and replacement of matching lines, a columnar line index over a mapped
//! file, structural queries over parsed source, and the rules of the
//! directory walk and of the command line around them.

pub mod backend_ast;
pub mod backend_cpu;
pub mod backend_gpu;
pub mod cli;
pub mod lines;
pub mod mmap_arrow;
pub mod pattern;
pub mod scanner;
