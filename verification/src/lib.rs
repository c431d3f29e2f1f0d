//! Verified core of the Atelierbuch customer and order book: the rules that
//! decide what is written to the database, to the backup files and to the
//! login, separated from the I/O that carries them out.

pub mod text;
pub mod zahl;
pub mod ordnung;
pub mod sicherung;
pub mod geschaeft;
pub mod auth;
