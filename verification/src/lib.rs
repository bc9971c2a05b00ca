pub mod gui;
pub mod keymaps;
pub mod lazylock;
pub mod parser;
pub mod program;
pub mod text;
pub mod util;
