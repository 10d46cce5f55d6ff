//! Persistent storage of a CTAP authenticator.
//!
//! The authenticator keeps its credentials, secrets and counters in a database of named
//! dictionaries, each of which maps key names to byte strings. This crate holds the rules of that
//! store: what is asked of the database, what is made of each reply, and how values are laid out.
//! Every rule is stated in a contract and proved.

pub mod attestation;
pub mod bytes;
pub mod cbor;
pub mod counter;
pub mod credential_laws;
pub mod credentials;
pub mod data_formats;
pub mod database_laws;
pub mod format_laws;
pub mod init;
pub mod key;
pub mod key_material;
pub mod laws;
pub mod names;
pub mod pddb;
pub mod pin;
pub mod record_format;
pub mod reply_laws;
pub mod request;
pub mod scan;
pub mod secrets;
pub mod setting_laws;
pub mod short_id;
pub mod status_code;
pub mod storage;
pub mod store_credential;
pub mod store_laws;
pub mod values;
pub mod view_laws;
