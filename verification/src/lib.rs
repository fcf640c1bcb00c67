//! The decisions of a media sync: which files a client downloads, removes or
//! uploads so that its media folder agrees with the server's, what it records
//! about them, and in which order the steps are taken.
//!
//! Nothing here touches the network, the disk or a database. A caller runs a
//! [`session::SyncSession`]: it performs the action that the session asks for
//! and hands back what came of it.

pub mod archive;
pub mod changes;
pub mod course;
pub mod database;
pub mod directory;
pub mod error;
pub mod extract;
pub mod json;
pub mod protocol;
pub mod reconcile;
pub mod records;
pub mod session;
pub mod steps;
pub mod text;
pub mod upload;

