//! Verified core of a foreground/background image composition tool: placement of a
//! foreground inside a background, naming and parsing of generated files, generation
//! plans, renaming of source images and the pixel statistics used to compare masks.
pub mod position;
pub mod text;
pub mod file_name;
pub mod roi;
mod chance;
pub mod generate;
pub mod config;
pub mod preprocess;
pub mod mask;
pub mod statistic;
