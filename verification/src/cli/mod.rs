//! The CLI frontend: dotted registry names become nested subcommands,
//! flags are parsed by hand, and the built-in `completion` words and help
//! texts are generated here.
pub mod parse;
pub mod completion;
pub mod help;
pub mod tree;
pub mod app;
pub mod render;
