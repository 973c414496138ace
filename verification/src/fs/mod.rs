pub mod descriptors;
pub mod paths;
pub mod ramfs;
pub mod tree;
