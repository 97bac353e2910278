pub mod text;
pub mod order;
pub mod winpath;
pub mod names;
pub mod models;
pub mod plan;
pub mod codec;
pub mod archive;
pub mod restore;
pub mod walk;
pub mod backup;
pub mod review;
pub mod config;
pub mod userdata;
pub mod portable;
pub mod installed;
