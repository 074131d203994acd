pub mod drain;
