//! Private information retrieval over a distributed point function.
//!
//! A client shares the indicator of the record it wants between two keys
//! (`dpf`), a server masks every record with each key's share and XORs the
//! results (`pir`), and the client XORs the two answers into the record.
pub mod dpf;
pub mod entropy;
pub mod error;
pub mod pir;
pub mod prg;

pub use dpf::{generate_keys, DpfKey, LevelCorrection};
pub use error::{check_status, DpfStatus, Error};
pub use pir::{Client, Database, Request, Response, Server};
