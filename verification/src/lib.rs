pub mod app;
pub mod clipboard;
pub mod db;
pub mod effects;
pub mod input;
pub mod keys;
pub mod laws;
pub mod lexical;
pub mod load;
pub mod loading;
pub mod names;
pub mod outcome;
pub mod quoting;
pub mod runs;
pub mod scan;
pub mod sql;
pub mod statements;
pub mod text;
pub mod views;
pub mod worker;
