pub mod alias;
pub mod cli;
pub mod commands;
pub mod config;
pub mod db;
pub mod entities;
pub mod terminal;
pub mod utils;
