pub mod cli;
pub mod disambiguate;
pub mod resolve;
pub mod strings;
