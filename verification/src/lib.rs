//! Reader and writer for a fixed-column molecular-structure record format:
//! one physical record per line, each field at an absolute character offset.
//!
//! Lines are decoded into typed records, folded into a validated [`PDB`]
//! model, and encoded back to fixed-column text. The decode and encode
//! directions are specified against one mathematical model of the format,
//! and the round trip (write, then read back) is proved in `laws`.

pub mod atom;
pub mod error;
pub mod item;
pub mod laws;
pub mod num;
pub mod pdb;
pub mod read;
pub mod residue;
pub mod save;
pub mod text;
pub mod validator;

pub use atom::Atom;
pub use error::PDBError;
pub use pdb::PDB;
pub use read::read_pdb_raw;
pub use residue::Residue;
pub use save::save_pdb_raw;
pub use validator::check_char;
pub use validator::prepare_identifier;
pub use validator::valid_identifier;
