//! Core of a vault synchronization engine: the durable mapping between local
//! relative paths and remote identifiers, the push and pull decision logic,
//! the folder path resolver, conflict detection, and the structured event log.
//!
//! All decision logic lives here and is verified; the surrounding I/O shell
//! (filesystem access, HTTP transport, watcher threads) drives these
//! functions from outside.
pub mod assoc;
pub mod events;
pub mod ingest;
pub mod registry;
pub mod hashing;
pub mod kind;
pub mod mapping;
pub mod paths;
pub mod pull;
pub mod push;
pub mod remote;
pub mod resolver;
pub mod tree;
pub mod types;
pub mod strutil;

use vstd::prelude::*;
use vstd::string::*;

verus! {

/// Joins a vault path and a project folder id into the key under which one
/// watcher and one poller per project are registered.
pub fn sync_key(vault_path: &str, project_folder_id: &str) -> (r: String)
    ensures
        r@ == vault_path@ + "|"@ + project_folder_id@,
{
    let mut s = String::new();
    s.append(vault_path);
    s.append("|");
    s.append(project_folder_id);
    s
}

} // verus!
