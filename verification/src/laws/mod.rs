//! What holds of the library as a whole, said of inputs and results.

pub mod certificates;
pub mod http;
pub mod keys;
pub mod proxy;
pub mod records;
pub mod relay;
pub mod replay;
pub mod screen;
pub mod scripts;
pub mod text;
pub mod views;
