pub mod bindings;
pub mod csv_filesystem;
pub mod delta;
pub mod elasticsearch;
pub mod filesystem;
pub mod kafka;
pub mod naming;
pub mod offset;
pub mod pipe;
pub mod psql;
pub mod python;
pub mod reader;
pub mod resume;
pub mod s3;
pub mod scanner;
pub mod sqlite;
pub mod string_map;
pub mod text;
pub mod value;
pub mod writer;
