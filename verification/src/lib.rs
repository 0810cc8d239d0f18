//! Building blocks for a thermal-printer driver: a tokenizer that splits text
//! into maximal runs of digit and non-digit characters, and the closed error
//! taxonomy shared by every operation of the driver.

pub mod error;
pub mod utils;

pub use error::Error;
pub use utils::Utils;
