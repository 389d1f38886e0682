//! Scaffolding for declaration files: records describing commands and
//! categories are serialized into the declaration syntax, together with the
//! path of the file that should hold them.

pub mod category;
pub mod command;
pub mod emit;
pub mod make;
pub mod produceable;
pub mod utils;
