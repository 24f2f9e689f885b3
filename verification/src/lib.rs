pub mod cover;
pub mod folder;
pub mod identity;
pub mod image;
pub mod listing;
pub mod node;
pub mod number;
pub mod path;
pub mod path_laws;
pub mod scan_laws;
pub mod source;
pub mod table;
pub mod text;
pub mod tree;
pub mod video;
pub mod volume;
pub mod walk;
