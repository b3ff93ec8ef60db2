//! The push engine's decisions: how a filesystem event path is classified,
//! when a file is re-uploaded, what a local deletion does remotely, and how
//! the mapping records the outcome.
use vstd::prelude::*;
use vstd::string::*;
use crate::mapping::{same_identity, FileMappingModel, FileMappingV1, SyncMappingV1};
use crate::paths::{
    has_md_extension, parent_rel_of, push_gate, spec_extension, spec_has_component,
    spec_is_reserved_rel, spec_parent_rel, spec_push_gate, spec_rel, trash_dest_path,
};
use crate::strutil::str_concat;

verus! {

/// What a filesystem event means for the push engine.
pub enum PushRoute {
    /// Outside the vault, internal, reserved, or not a markdown document:
    /// nothing is looked up or sent.
    Ignored,
    /// The path is mapped but gone from disk: delete remotely, after
    /// archiving.
    Deletion { rel: String },
    /// A directory: ensure the remote folder chain exists.
    Folder { rel: String },
    /// A markdown document: upsert its content remotely.
    File { rel: String },
}

/// Classifies one event path, given what the filesystem reports about it.
pub fn classify_push_path(vault_path: &str, abs_path: &str, exists_on_disk: bool, is_dir: bool)
    -> (r: PushRoute)
    ensures
        match r {
            PushRoute::Ignored => spec_push_gate(vault_path@, abs_path@) is None || (exists_on_disk
                && !is_dir && spec_extension(spec_push_gate(vault_path@, abs_path@).unwrap())
                != Some("md"@)),
            PushRoute::Deletion { rel } => spec_push_gate(vault_path@, abs_path@) == Some(rel@)
                && !exists_on_disk,
            PushRoute::Folder { rel } => spec_push_gate(vault_path@, abs_path@) == Some(rel@)
                && exists_on_disk && is_dir,
            PushRoute::File { rel } => spec_push_gate(vault_path@, abs_path@) == Some(rel@)
                && exists_on_disk && !is_dir && spec_extension(rel@) == Some("md"@),
        },
{
    match push_gate(vault_path, abs_path) {
        None => PushRoute::Ignored,
        Some(rel) => {
            if exists_on_disk && is_dir {
                PushRoute::Folder { rel }
            } else if !exists_on_disk {
                PushRoute::Deletion { rel }
            } else if has_md_extension(rel.as_str()) {
                PushRoute::File { rel }
            } else {
                PushRoute::Ignored
            }
        },
    }
}

/// Law: paths with a `.nexusmap` component, and relative paths under the
/// reserved `resources` and `rag` trees, never pass the push gate, so no
/// remote call is made for them.
pub proof fn lemma_exclusion(vault_path: Seq<char>, abs_path: Seq<char>)
    requires
        spec_has_component(abs_path, ".nexusmap"@) || (spec_rel(vault_path, abs_path) is Some
            && spec_is_reserved_rel(spec_rel(vault_path, abs_path).unwrap())),
    ensures
        spec_push_gate(vault_path, abs_path) is None,
{
}

/// The model of `prev`, when there is one.
pub open spec fn model_of(prev: Option<&FileMappingV1>) -> Option<FileMappingModel> {
    match prev {
        Some(p) => Some(p.deep_view()),
        None => None,
    }
}

/// A push is a no-op exactly when the path is already mapped and the bytes
/// on disk hash to the recorded hash.
pub open spec fn is_push_noop(prev: Option<FileMappingModel>, local_hash: Seq<char>) -> bool {
    prev is Some && prev.unwrap().local_hash == local_hash
}

/// What the upload step of a push does.
pub enum PushFileAction {
    /// Nothing: no request, no mapping rewrite, no event.
    Noop,
    /// The mapped remote row is patched.
    Update { file_id: String },
    /// No mapping entry: a remote row of the same name is looked up to be
    /// patched, or a new row is created.
    CreateOrReuse,
}

/// Decides the upload step from the mapping entry and the hash of the bytes
/// read.
pub fn push_file_decision(prev: Option<&FileMappingV1>, local_hash: &str) -> (r: PushFileAction)
    ensures
        match r {
            PushFileAction::Noop => is_push_noop(model_of(prev), local_hash@),
            PushFileAction::Update { file_id } => prev is Some && !is_push_noop(
                model_of(prev),
                local_hash@,
            ) && file_id@ == prev.unwrap().file_id@,
            PushFileAction::CreateOrReuse => prev is None,
        },
{
    match prev {
        Some(p) => {
            if crate::strutil::str_eq(p.local_hash.as_str(), local_hash) {
                PushFileAction::Noop
            } else {
                PushFileAction::Update { file_id: p.file_id.clone() }
            }
        },
        None => PushFileAction::CreateOrReuse,
    }
}

/// Law: push is idempotent on content. Once a push has recorded an entry,
/// a second push of unchanged bytes — hashing to the entry's `local_hash` —
/// is a no-op: no request, no mapping rewrite.
pub proof fn lemma_push_hash_idempotent(
    files: Map<Seq<char>, FileMappingModel>,
    rel: Seq<char>,
    entry: FileMappingModel,
)
    ensures
        is_push_noop(Some(files.insert(rel, entry)[rel]), entry.local_hash),
{
}

/// Records the outcome of an upload in the mapping: the file entry, and —
/// so the record keeps its invariant that every file's parent path is a
/// known folder — the file's parent path mapped to the folder it was
/// uploaded into. The root path is always known and is never overwritten.
pub fn record_push(
    mapping: &mut SyncMappingV1,
    rel: &str,
    file_id: String,
    folder_id: String,
    kind: String,
    local_hash: String,
    remote_updated_at: String,
)
    requires
        old(mapping).wf(),
    ensures
        final(mapping).wf(),
        same_identity(*final(mapping), *old(mapping)),
        final(mapping).files@ == old(mapping).files@.insert(
            rel@,
            FileMappingModel {
                file_id: file_id@,
                folder_id: folder_id@,
                kind: kind@,
                local_hash: local_hash@,
                remote_updated_at: remote_updated_at@,
            },
        ),
        final(mapping).folders@ == if spec_parent_rel(rel@).len() == 0 {
            old(mapping).folders@
        } else {
            old(mapping).folders@.insert(spec_parent_rel(rel@), folder_id@)
        },
        final(mapping).resources@ == old(mapping).resources@,
        final(mapping).updated_at == old(mapping).updated_at,
        final(mapping).last_pull_at == old(mapping).last_pull_at,
        final(mapping).last_rag_export_at == old(mapping).last_rag_export_at,
{
    let parent = parent_rel_of(rel);
    if parent.as_str().unicode_len() > 0 {
        mapping.folders.insert(parent, folder_id.clone());
    }
    let entry = FileMappingV1 { file_id, folder_id, kind, local_hash, remote_updated_at };
    mapping.files.insert(rel.to_owned(), entry);
    proof {
        assert forall|r2: Seq<char>| #[trigger] mapping.files@.contains_key(r2) implies
            mapping.folders@.contains_key(spec_parent_rel(r2)) by {
            if r2 == rel@ {
                if spec_parent_rel(rel@).len() == 0 {
                    assert(spec_parent_rel(r2) =~= Seq::<char>::empty());
                    assert(mapping.folders@.contains_key(Seq::<char>::empty()));
                }
            } else {
                assert(old(mapping).files@.contains_key(r2));
            }
        }
    }
}

/// Removes the mapping entry of a deleted local file, returning what was
/// mapped.
pub fn apply_push_deletion(mapping: &mut SyncMappingV1, rel: &str) -> (r: Option<FileMappingV1>)
    requires
        old(mapping).wf(),
    ensures
        final(mapping).wf(),
        same_identity(*final(mapping), *old(mapping)),
        final(mapping).files@ == old(mapping).files@.remove(rel@),
        match r {
            Some(p) => old(mapping).files@.contains_key(rel@) && p.deep_view() == old(
                mapping,
            ).files@[rel@],
            None => !old(mapping).files@.contains_key(rel@) && final(mapping).files@ == old(
                mapping,
            ).files@,
        },
        final(mapping).folders@ == old(mapping).folders@,
        final(mapping).resources@ == old(mapping).resources@,
        final(mapping).updated_at == old(mapping).updated_at,
        final(mapping).last_pull_at == old(mapping).last_pull_at,
        final(mapping).last_rag_export_at == old(mapping).last_rag_export_at,
{
    let r = mapping.files.remove_key(rel);
    proof {
        assert forall|r2: Seq<char>| #[trigger] mapping.files@.contains_key(r2) implies
            mapping.folders@.contains_key(spec_parent_rel(r2)) by {
            assert(old(mapping).files@.contains_key(r2));
        }
    }
    r
}

/// One step of handling a locally deleted, mapped file.
pub enum DeletionStep {
    /// Fetch the remote row's name and content, best effort.
    FetchRemoteBackup { file_id: String },
    /// Write the fetched content into the trash archive.
    WriteTrashCopy { dest: String },
    /// Log the deletion.
    EmitDeleteEvent { rel: String, detail: String },
    /// Delete the remote row.
    DeleteRemoteRow { file_id: String },
}

/// The steps a local deletion performs, in order. The remote content is
/// archived into the trash before the remote row is deleted, so an
/// accidental local delete stays recoverable.
pub fn push_deletion_steps(prev: &FileMappingV1, vault_path: &str, rel: &str, ts: &str) -> (r: Vec<
    DeletionStep,
>)
    ensures
        r@.len() == 4,
        (r@[0] matches DeletionStep::FetchRemoteBackup { file_id } && file_id@ == prev.file_id@),
        (r@[1] matches DeletionStep::WriteTrashCopy { dest } && dest@ == vault_path@
            + "/.nexusmap"@ + "/trash"@ + "/"@ + ts@ + "/"@ + rel@),
        (r@[2] matches DeletionStep::EmitDeleteEvent { rel: r2, detail } && r2@ == rel@ && detail@
            == "Deleted remote file_id="@ + prev.file_id@),
        (r@[3] matches DeletionStep::DeleteRemoteRow { file_id } && file_id@ == prev.file_id@),
        forall|i: int, j: int|
            0 <= i < r@.len() && 0 <= j < r@.len() && r@[i] is WriteTrashCopy
                && r@[j] is DeleteRemoteRow ==> i < j,
{
    let mut steps: Vec<DeletionStep> = Vec::new();
    steps.push(DeletionStep::FetchRemoteBackup { file_id: prev.file_id.clone() });
    steps.push(
        DeletionStep::WriteTrashCopy { dest: trash_dest_path(vault_path, ts, rel) },
    );
    steps.push(
        DeletionStep::EmitDeleteEvent {
            rel: rel.to_owned(),
            detail: str_concat("Deleted remote file_id=", prev.file_id.as_str()),
        },
    );
    steps.push(DeletionStep::DeleteRemoteRow { file_id: prev.file_id.clone() });
    steps
}

/// Marks the mapping as rewritten at `now`.
pub fn touch_updated_at(mapping: &mut SyncMappingV1, now: &str)
    requires
        old(mapping).wf(),
    ensures
        final(mapping).wf(),
        same_identity(*final(mapping), *old(mapping)),
        final(mapping).updated_at@ == now@,
        final(mapping).files@ == old(mapping).files@,
        final(mapping).folders@ == old(mapping).folders@,
        final(mapping).resources@ == old(mapping).resources@,
        final(mapping).last_pull_at == old(mapping).last_pull_at,
        final(mapping).last_rag_export_at == old(mapping).last_rag_export_at,
{
    mapping.updated_at = now.to_owned();
}

} // verus!
