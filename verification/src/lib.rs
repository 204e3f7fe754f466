pub mod compare;
pub mod context;
pub mod directory;
pub mod error;
pub mod exec;
pub mod fstree;
pub mod locate;
pub mod path;
pub mod replace;
pub mod strings;
