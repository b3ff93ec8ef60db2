//! End-to-end scenarios over the engine's decision functions: init, push,
//! pull, conflict handling, deletion reconciliation, and folder resolution.
use nexusmap_sync::hashing::{hash_opt, sha256_hex, utf8_lossy};
use nexusmap_sync::mapping::{new_mapping, sync_init_decide, FileMappingV1, SyncMappingV1};
use nexusmap_sync::pull::{
    apply_pull_file, apply_pull_resource, pull_row_decision, reconcile_deleted_files,
    reconcile_deleted_resources, resource_rel_path, reverse_file_map, since_of, target_rel_path,
    PullRowAction,
};
use nexusmap_sync::push::{
    apply_push_deletion, classify_push_path, push_deletion_steps, push_file_decision, record_push,
    DeletionStep, PushFileAction, PushRoute,
};
use nexusmap_sync::resolver::{FolderResolver, ResolverStep};
use nexusmap_sync::types::SyncSummary;

const HELLO_SHA256: &str = "2cf24dba5fb0a30e26e83b2ac5b9e29e1b161e5c1fa7425e73043362938b9824";

fn fresh_mapping() -> SyncMappingV1 {
    new_mapping(
        "/v".to_string(),
        "P".to_string(),
        "2024-01-01T00:00:00+00:00".to_string(),
    )
}

#[test]
fn fresh_init_builds_root_mapping() {
    // S1: a fresh init yields folders = {"": "P"} and no files.
    let r: Result<(SyncMappingV1, bool), String> = sync_init_decide(
        None,
        "/v".to_string(),
        "P".to_string(),
        "2024-01-01T00:00:00+00:00".to_string(),
    );
    let (m, created) = match r {
        Ok(p) => p,
        Err(e) => panic!("fresh init must succeed: {e}"),
    };
    assert!(created);
    assert_eq!(m.version, 1);
    assert_eq!(m.vault_path, "/v");
    assert_eq!(m.project_folder_id, "P");
    assert_eq!(m.folders.get("").unwrap(), "P");
    assert_eq!(m.files.num_entries(), 0);
    assert_eq!(m.resources.num_entries(), 0);
    assert_eq!(m.last_pull_at, "");
}

#[test]
fn init_is_idempotent_and_rejects_other_project() {
    // P1: the second init returns the same record; another project fails.
    let (m, _) = match sync_init_decide(
        None,
        "/v".to_string(),
        "P".to_string(),
        "2024-01-01T00:00:00+00:00".to_string(),
    ) {
        Ok(p) => p,
        Err(e) => panic!("fresh init must succeed: {e}"),
    };
    let created_at = m.created_at.clone();
    let (m2, created2) = match sync_init_decide(
        Some(m),
        "/v".to_string(),
        "P".to_string(),
        "2024-06-01T00:00:00+00:00".to_string(),
    ) {
        Ok(p) => p,
        Err(e) => panic!("matching init must succeed: {e}"),
    };
    assert!(!created2);
    assert_eq!(m2.created_at, created_at);
    assert_eq!(m2.project_folder_id, "P");

    let err = match sync_init_decide(
        Some(m2),
        "/v".to_string(),
        "Q".to_string(),
        "2024-06-01T00:00:00+00:00".to_string(),
    ) {
        Err(e) => e,
        Ok(_) => panic!("a different project must be refused"),
    };
    assert_eq!(
        err,
        "This vault is already linked to a different NexusMap project. Remove .nexusmap/sync.json to relink."
    );
}

#[test]
fn init_rejects_blank_inputs() {
    let err = match sync_init_decide(None, "  ".to_string(), "P".to_string(), "t".to_string()) {
        Err(e) => e,
        Ok(_) => panic!("a blank vault path must be refused"),
    };
    assert_eq!(err, "vault_path is required");
    let err = match sync_init_decide(None, "/v".to_string(), "".to_string(), "t".to_string()) {
        Err(e) => e,
        Ok(_) => panic!("a blank project must be refused"),
    };
    assert_eq!(err, "project_folder_id is required");
}

#[test]
fn first_push_records_hash_of_bytes() {
    // S2: pushing "hello" under a/b records the hash of its bytes.
    let mut m = fresh_mapping();
    let bytes = b"hello".to_vec();
    let local_hash = sha256_hex(&bytes);
    assert_eq!(local_hash, HELLO_SHA256);
    let content = utf8_lossy(&bytes);
    assert_eq!(content, "hello");

    match push_file_decision(m.files.get("a/b/note.md"), &local_hash) {
        PushFileAction::CreateOrReuse => {}
        _ => panic!("unmapped file must be created or reused"),
    }
    record_push(
        &mut m,
        "a/b/note.md",
        "file-1".to_string(),
        "folder-ab".to_string(),
        "note".to_string(),
        local_hash.clone(),
        "2024-01-02T00:00:00+00:00".to_string(),
    );
    let e = m.files.get("a/b/note.md").unwrap();
    assert_eq!(e.file_id, "file-1");
    assert_eq!(e.local_hash, HELLO_SHA256);
    assert_eq!(e.kind, "note");
    // Recording the file also records its parent path as a known folder.
    assert_eq!(m.folders.get("a/b").unwrap(), "folder-ab");
}

#[test]
fn unchanged_bytes_push_is_noop() {
    // P2 / S3: a second push of the same bytes decides Noop; changed bytes
    // decide Update on the mapped row.
    let mut m = fresh_mapping();
    let hash = sha256_hex(&b"hello".to_vec());
    record_push(
        &mut m,
        "note.md",
        "file-1".to_string(),
        "P".to_string(),
        "note".to_string(),
        hash.clone(),
        "t1".to_string(),
    );
    match push_file_decision(m.files.get("note.md"), &hash) {
        PushFileAction::Noop => {}
        _ => panic!("same hash must be a no-op"),
    }
    let other = sha256_hex(&b"world".to_vec());
    match push_file_decision(m.files.get("note.md"), &other) {
        PushFileAction::Update { file_id } => assert_eq!(file_id, "file-1"),
        _ => panic!("changed hash must patch the mapped row"),
    }
}

#[test]
fn round_trip_preserves_content_and_file_id() {
    // P3: push "hello", pull the row into a fresh sibling mapping: the
    // content hash and the remote file id carry over.
    let mut source = fresh_mapping();
    let bytes = b"hello".to_vec();
    let pushed_hash = sha256_hex(&bytes);
    record_push(
        &mut source,
        "a/b/note.md",
        "file-1".to_string(),
        "folder-ab".to_string(),
        "note".to_string(),
        pushed_hash.clone(),
        "2024-01-02T00:00:00+00:00".to_string(),
    );

    let mut sibling = fresh_mapping();
    let mut summary = SyncSummary::default();
    // The sibling vault has no local copy yet: its local hash is empty.
    let local_hash = hash_opt(&None);
    assert_eq!(local_hash, "");
    match pull_row_decision("", "", &local_hash, "2024-01-02T00:00:00+00:00") {
        PullRowAction::Overwrite => {}
        PullRowAction::Conflict => panic!("a fresh vault never conflicts"),
    }
    let remote_content = utf8_lossy(&bytes);
    apply_pull_file(
        &mut sibling,
        &mut summary,
        "a/b/note.md",
        "file-1".to_string(),
        "folder-ab".to_string(),
        "note".to_string(),
        &remote_content,
        "2024-01-02T00:00:00+00:00".to_string(),
    );
    let e = sibling.files.get("a/b/note.md").unwrap();
    assert_eq!(e.file_id, "file-1");
    assert_eq!(e.local_hash, pushed_hash);
    // The pull records the parent path too, keeping the mapping invariant.
    assert_eq!(sibling.folders.get("a/b").unwrap(), "folder-ab");
    assert_eq!(summary.files_created, 1);
    assert_eq!(summary.files_updated, 0);
}

#[test]
fn diverged_sides_conflict() {
    // P4 / S4: local edits plus a newer remote timestamp decide Conflict.
    let prev_hash = sha256_hex(&b"hello".to_vec());
    let local_hash = sha256_hex(&b"local".to_vec());
    match pull_row_decision(
        &prev_hash,
        "2024-01-02T00:00:00+00:00",
        &local_hash,
        "2024-03-01T00:00:00+00:00",
    ) {
        PullRowAction::Conflict => {}
        PullRowAction::Overwrite => panic!("diverged sides must conflict"),
    }
    // Without local edits the newer remote side simply overwrites.
    match pull_row_decision(
        &prev_hash,
        "2024-01-02T00:00:00+00:00",
        &prev_hash,
        "2024-03-01T00:00:00+00:00",
    ) {
        PullRowAction::Overwrite => {}
        PullRowAction::Conflict => panic!("no local edit, no conflict"),
    }
    // A remote row no newer than the one last seen never conflicts.
    match pull_row_decision(
        &prev_hash,
        "2024-03-01T00:00:00+00:00",
        &local_hash,
        "2024-01-02T00:00:00+00:00",
    ) {
        PullRowAction::Overwrite => {}
        PullRowAction::Conflict => panic!("older remote must not conflict"),
    }
}

#[test]
fn deletion_archives_before_remote_delete() {
    // P5: the deletion plan fetches and archives the remote content before
    // the remote row is deleted.
    let prev = FileMappingV1 {
        file_id: "file-1".to_string(),
        folder_id: "folder-ab".to_string(),
        kind: "note".to_string(),
        local_hash: HELLO_SHA256.to_string(),
        remote_updated_at: "t1".to_string(),
    };
    let steps = push_deletion_steps(&prev, "/v", "a/b/note.md", "2024-01-03T000000Z");
    assert_eq!(steps.len(), 4);
    match &steps[0] {
        DeletionStep::FetchRemoteBackup { file_id } => assert_eq!(file_id, "file-1"),
        _ => panic!("first step fetches the backup"),
    }
    match &steps[1] {
        DeletionStep::WriteTrashCopy { dest } => {
            assert_eq!(dest, "/v/.nexusmap/trash/2024-01-03T000000Z/a/b/note.md")
        }
        _ => panic!("second step archives into the trash"),
    }
    match &steps[2] {
        DeletionStep::EmitDeleteEvent { rel, detail } => {
            assert_eq!(rel, "a/b/note.md");
            assert_eq!(detail, "Deleted remote file_id=file-1");
        }
        _ => panic!("third step logs the deletion"),
    }
    match &steps[3] {
        DeletionStep::DeleteRemoteRow { file_id } => assert_eq!(file_id, "file-1"),
        _ => panic!("last step deletes the remote row"),
    }

    let mut m = fresh_mapping();
    record_push(
        &mut m,
        "a/b/note.md",
        "file-1".to_string(),
        "folder-ab".to_string(),
        "note".to_string(),
        HELLO_SHA256.to_string(),
        "t1".to_string(),
    );
    let removed = apply_push_deletion(&mut m, "a/b/note.md").expect("entry was mapped");
    assert_eq!(removed.file_id, "file-1");
    assert!(m.files.get("a/b/note.md").is_none());
}

#[test]
fn remote_deletion_reconciles_mapping() {
    // P6 / S5: when the remote row disappears, the next pull drops the
    // entry and reports it for archival.
    let mut m = fresh_mapping();
    record_push(
        &mut m,
        "a/b/note.md",
        "file-1".to_string(),
        "folder-ab".to_string(),
        "note".to_string(),
        HELLO_SHA256.to_string(),
        "t1".to_string(),
    );
    record_push(
        &mut m,
        "kept.md",
        "file-2".to_string(),
        "P".to_string(),
        "note".to_string(),
        HELLO_SHA256.to_string(),
        "t1".to_string(),
    );
    let remote_ids = vec!["file-2".to_string()];
    let removed = reconcile_deleted_files(&mut m, &remote_ids);
    assert_eq!(removed, vec!["a/b/note.md".to_string()]);
    assert!(m.files.get("a/b/note.md").is_none());
    assert!(m.files.get("kept.md").is_some());

    // A second reconciliation with the same ids removes nothing more.
    let removed = reconcile_deleted_files(&mut m, &remote_ids);
    assert!(removed.is_empty());
}

#[test]
fn resource_rows_materialize_under_resources() {
    // S6: a docling resource lands under resources/docling/.
    let rel = resource_rel_path("paper.md", &Some("docling".to_string()));
    assert_eq!(rel, "resources/docling/paper.md");
    let rel_plain = resource_rel_path("paper.md", &None);
    assert_eq!(rel_plain, "resources/paper.md");
    let rel_other = resource_rel_path("paper.md", &Some("upload".to_string()));
    assert_eq!(rel_other, "resources/paper.md");

    let mut m = fresh_mapping();
    apply_pull_resource(
        &mut m,
        &rel,
        "res-1".to_string(),
        "X",
        "2024-01-05T00:00:00+00:00".to_string(),
    );
    let e = m.resources.get("resources/docling/paper.md").unwrap();
    assert_eq!(e.resource_id, "res-1");
    assert_eq!(e.local_hash, sha256_hex(&b"X".to_vec()));

    let removed = reconcile_deleted_resources(&mut m, &Vec::new());
    assert_eq!(removed, vec!["resources/docling/paper.md".to_string()]);
    assert_eq!(m.resources.num_entries(), 0);
}

#[test]
fn folder_resolver_creates_each_segment_once() {
    // P10 / S2: resolving a/b asks for each missing segment once, records
    // both, and a re-resolution makes no remote request at all.
    let mut m = fresh_mapping();
    let mut r = FolderResolver::start(&m, "a/b");
    match r.step(&m) {
        ResolverStep::Lookup { parent_id, name } => {
            assert_eq!(parent_id, "P");
            assert_eq!(name, "a");
        }
        ResolverStep::Done(_) => panic!("segment a is unknown"),
    }
    r.record(&mut m, "folder-a".to_string(), true);
    match r.step(&m) {
        ResolverStep::Lookup { parent_id, name } => {
            assert_eq!(parent_id, "folder-a");
            assert_eq!(name, "b");
        }
        ResolverStep::Done(_) => panic!("segment b is unknown"),
    }
    r.record(&mut m, "folder-ab".to_string(), true);
    match r.step(&m) {
        ResolverStep::Done(id) => assert_eq!(id, "folder-ab"),
        ResolverStep::Lookup { .. } => panic!("path fully resolved"),
    }
    assert_eq!(r.created_count(), 2);
    assert_eq!(r.reused_count(), 0);
    assert_eq!(m.folders.get("a").unwrap(), "folder-a");
    assert_eq!(m.folders.get("a/b").unwrap(), "folder-ab");

    // Idempotent re-invocation: everything is known, no lookup happens.
    let mut r2 = FolderResolver::start(&m, "a/b");
    match r2.step(&m) {
        ResolverStep::Done(id) => assert_eq!(id, "folder-ab"),
        ResolverStep::Lookup { .. } => panic!("second resolution must be free"),
    }
    assert_eq!(r2.created_count(), 0);
    assert_eq!(r2.reused_count(), 0);

    // The empty path resolves to the project root.
    let mut r3 = FolderResolver::start(&m, "");
    match r3.step(&m) {
        ResolverStep::Done(id) => assert_eq!(id, "P"),
        ResolverStep::Lookup { .. } => panic!("the root is always known"),
    }
}

#[test]
fn push_routes_follow_the_gate() {
    // P7: internal, reserved, foreign and non-markdown paths are ignored.
    match classify_push_path("/v", "/v/.nexusmap/sync.json", true, false) {
        PushRoute::Ignored => {}
        _ => panic!("internal paths are ignored"),
    }
    match classify_push_path("/v", "/v/resources/r.md", true, false) {
        PushRoute::Ignored => {}
        _ => panic!("resources are never pushed"),
    }
    match classify_push_path("/v", "/v/rag/chunks.jsonl", true, false) {
        PushRoute::Ignored => {}
        _ => panic!("the snapshot tree is never pushed"),
    }
    match classify_push_path("/v", "/w/elsewhere.md", true, false) {
        PushRoute::Ignored => {}
        _ => panic!("paths outside the vault are ignored"),
    }
    match classify_push_path("/v", "/v/picture.png", true, false) {
        PushRoute::Ignored => {}
        _ => panic!("non-markdown files are ignored"),
    }
    match classify_push_path("/v", "/v/a/b/note.md", true, false) {
        PushRoute::File { rel } => assert_eq!(rel, "a/b/note.md"),
        _ => panic!("markdown files are pushed"),
    }
    match classify_push_path("/v", "/v/a/b", true, true) {
        PushRoute::Folder { rel } => assert_eq!(rel, "a/b"),
        _ => panic!("directories ensure remote folders"),
    }
    match classify_push_path("/v", "/v/a/b/note.md", false, false) {
        PushRoute::Deletion { rel } => assert_eq!(rel, "a/b/note.md"),
        _ => panic!("a vanished mapped path is a deletion"),
    }
}

#[test]
fn reverse_map_prefers_recorded_paths() {
    let mut m = fresh_mapping();
    record_push(
        &mut m,
        "renamed/by/user.md",
        "file-1".to_string(),
        "folder-x".to_string(),
        "note".to_string(),
        HELLO_SHA256.to_string(),
        "t1".to_string(),
    );
    let by_id = reverse_file_map(&m);
    assert_eq!(by_id.get("file-1").unwrap(), "renamed/by/user.md");
    // A mapped id keeps its recorded path; an unknown id lands under its
    // remote folder path.
    assert_eq!(
        target_rel_path(&by_id, "file-1", "a/b", "note.md"),
        "renamed/by/user.md"
    );
    assert_eq!(target_rel_path(&by_id, "file-9", "a/b", "note.md"), "a/b/note.md");
    assert_eq!(target_rel_path(&by_id, "file-9", "", "note.md"), "note.md");
}

#[test]
fn since_defaults_to_epoch() {
    assert_eq!(since_of(""), "1970-01-01T00:00:00Z");
    assert_eq!(since_of("  "), "1970-01-01T00:00:00Z");
    assert_eq!(
        since_of("2024-01-02T00:00:00+00:00"),
        "2024-01-02T00:00:00+00:00"
    );
}

#[test]
fn lossy_decoding_keeps_valid_utf8() {
    let valid = b"caf\xc3\xa9".to_vec();
    assert_eq!(utf8_lossy(&valid), "café");
    let invalid = vec![0x68, 0xff, 0x69];
    let decoded = utf8_lossy(&invalid);
    assert_eq!(decoded, "h\u{fffd}i");
}
