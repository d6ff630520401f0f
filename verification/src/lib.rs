//! Keeping Codex sessions visible across model providers, backups in S3, and
//! the schema of the `roles` table.
pub mod codex_session_visibility;
pub mod error;
pub mod json;
pub mod migration;
pub mod s3_backup;
pub mod strmap;
pub mod text;
pub mod types;
