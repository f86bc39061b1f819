//! Private nodes: files and directories that only the holders of their keys can read.

pub mod directory;
pub mod encoding;
pub mod entries;
pub mod forest;
pub mod header;
pub mod laws;
pub mod loading;
pub mod metadata;
pub mod name;
pub mod namefilter;
pub mod node;
pub mod operations;
pub mod order;
pub mod path;
pub mod reference;
pub mod share;
pub mod views;
