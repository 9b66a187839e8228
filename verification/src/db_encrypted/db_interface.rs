pub use crate::db_encrypted::DatabaseInterface;
