//! Plain data carried between the engine and its surroundings: credentials,
//! summary counters, and structured event records.
use vstd::prelude::*;
use vstd::string::*;

verus! {

/// Credentials for the hosted store. Tokens are opaque to the engine.
pub struct SupabaseAuth {
    pub supabase_url: String,
    pub supabase_anon_key: String,
    pub access_token: String,
    pub refresh_token: Option<String>,
    pub owner_id: String,
}

impl Clone for SupabaseAuth {
    fn clone(&self) -> (r: Self)
        ensures
            r.supabase_url@ == self.supabase_url@,
            r.supabase_anon_key@ == self.supabase_anon_key@,
            r.access_token@ == self.access_token@,
            r.refresh_token.deep_view() == self.refresh_token.deep_view(),
            r.owner_id@ == self.owner_id@,
    {
        SupabaseAuth {
            supabase_url: self.supabase_url.clone(),
            supabase_anon_key: self.supabase_anon_key.clone(),
            access_token: self.access_token.clone(),
            refresh_token: match &self.refresh_token {
                Some(t) => Some(t.clone()),
                None => None,
            },
            owner_id: self.owner_id.clone(),
        }
    }
}

/// Counters and collected per-row errors of one push or pull operation.
pub struct SyncSummary {
    pub folders_created: u32,
    pub folders_reused: u32,
    pub files_created: u32,
    pub files_updated: u32,
    pub files_deleted: u32,
    pub files_skipped: u32,
    pub resources_deleted: u32,
    pub errors: Vec<String>,
}

impl SyncSummary {
    pub open spec fn is_zero(self) -> bool {
        self.folders_created == 0 && self.folders_reused == 0 && self.files_created == 0
            && self.files_updated == 0 && self.files_deleted == 0 && self.files_skipped == 0
            && self.resources_deleted == 0 && self.errors@.len() == 0
    }
}

impl Default for SyncSummary {
    fn default() -> (r: Self)
        ensures
            r.is_zero(),
    {
        SyncSummary {
            folders_created: 0,
            folders_reused: 0,
            files_created: 0,
            files_updated: 0,
            files_deleted: 0,
            files_skipped: 0,
            resources_deleted: 0,
            errors: Vec::new(),
        }
    }
}

/// A counter advanced by one, stopping at the top of its range.
pub open spec fn spec_bumped(c: u32) -> int {
    if c < u32::MAX {
        c + 1
    } else {
        c as int
    }
}

/// Advances a summary counter, stopping at the top of its range.
pub fn bump(c: &mut u32)
    ensures
        *final(c) == spec_bumped(*old(c)),
{
    if *c < u32::MAX {
        *c = *c + 1;
    }
}

/// One line of the append-only event log.
pub struct SyncEvent {
    pub ts: String,
    pub kind: String,
    pub path: String,
    pub detail: String,
}

impl SyncEvent {
    pub fn new(ts: String, kind: String, path: String, detail: String) -> (r: Self)
        ensures
            r.ts@ == ts@,
            r.kind@ == kind@,
            r.path@ == path@,
            r.detail@ == detail@,
    {
        SyncEvent { ts, kind, path, detail }
    }
}

/// Inputs of the knowledge-base ingest command.
pub struct RagIngestRequest {
    pub project_folder_id: String,
    pub access_token: String,
    pub api_base_url: String,
}

} // verus!
