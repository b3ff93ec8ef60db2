//! The remote client's decisions, the folder tree, the supervisors' guard,
//! and the ingest loop.
use nexusmap_sync::ingest::{
    ingest_stalled_error, ingest_step, ingest_url, validate_ingest_request, IngestStep,
};
use nexusmap_sync::registry::Registry;
use nexusmap_sync::remote::{
    after_first_response, apply_refresh, check_project_match, eq_filter, gt_filter, in_filter,
    next_page_offset, paging_exhausted, refresh_precheck, refresh_url, rest_base,
    vault_missing_error, AfterResponse,
};
use nexusmap_sync::tree::{compute_subtree_folder_ids, folder_rel_from_tree, FolderNode};
use nexusmap_sync::assoc::AssocMap;
use nexusmap_sync::types::{RagIngestRequest, SupabaseAuth, SyncEvent};
use nexusmap_sync::pull::rag_export_decide;

fn auth() -> SupabaseAuth {
    SupabaseAuth {
        supabase_url: "https://store.example//".to_string(),
        supabase_anon_key: "anon".to_string(),
        access_token: "tok".to_string(),
        refresh_token: Some("ref".to_string()),
        owner_id: "me".to_string(),
    }
}

#[test]
fn endpoints_drop_trailing_slashes() {
    assert_eq!(rest_base(&auth()), "https://store.example/rest/v1");
    assert_eq!(
        refresh_url("https://store.example/"),
        "https://store.example/auth/v1/token?grant_type=refresh_token"
    );
}

#[test]
fn a_401_triggers_exactly_one_refresh() {
    // P9: only the unauthorized status refreshes and retries, and only
    // once — the decision has no second-retry state.
    match after_first_response(401) {
        AfterResponse::RefreshAndRetry => {}
        AfterResponse::UseResponse => panic!("401 must refresh"),
    }
    for status in [200u16, 201, 400, 403, 404, 500] {
        match after_first_response(status) {
            AfterResponse::UseResponse => {}
            AfterResponse::RefreshAndRetry => panic!("only 401 refreshes"),
        }
    }
}

#[test]
fn refresh_needs_and_rotates_tokens() {
    let mut a = auth();
    assert_eq!(refresh_precheck(&a).unwrap(), "ref");
    apply_refresh(&mut a, "tok2".to_string(), Some("ref2".to_string()));
    assert_eq!(a.access_token, "tok2");
    assert_eq!(a.refresh_token.as_deref(), Some("ref2"));
    apply_refresh(&mut a, "tok3".to_string(), None);
    assert_eq!(a.access_token, "tok3");
    assert_eq!(a.refresh_token.as_deref(), Some("ref2"));

    a.refresh_token = None;
    assert_eq!(
        refresh_precheck(&a).unwrap_err(),
        "missing refresh_token (cannot refresh)"
    );
}

#[test]
fn query_filters_and_paging() {
    assert_eq!(eq_filter("abc"), "eq.abc");
    assert_eq!(gt_filter("2024"), "gt.2024");
    assert_eq!(
        in_filter(&vec!["a".to_string(), "b".to_string(), "c".to_string()]),
        "in.(a,b,c)"
    );
    assert_eq!(in_filter(&Vec::new()), "in.()");
    assert_eq!(next_page_offset(1000, 1000, 0), Some(1000));
    assert_eq!(next_page_offset(999, 1000, 0), None);
    assert!(!paging_exhausted(200000));
    assert!(paging_exhausted(200001));
}

#[test]
fn entry_point_validation() {
    assert!(check_project_match("P", "P").is_ok());
    assert_eq!(
        check_project_match("P", "Q").unwrap_err(),
        "mapping project_folder_id mismatch"
    );
    assert_eq!(vault_missing_error(), "vault_path does not exist");
}

fn node(id: &str, parent: Option<&str>, name: &str) -> FolderNode {
    FolderNode {
        id: id.to_string(),
        parent_id: parent.map(|p| p.to_string()),
        name: name.to_string(),
    }
}

#[test]
fn subtree_collects_descendants_only() {
    let folders = vec![
        node("A", Some("P"), "a"),
        node("B", Some("A"), "b"),
        node("X", Some("Q"), "x"),
        node("C", Some("B"), "c"),
    ];
    let ids = compute_subtree_folder_ids("P", &folders);
    assert_eq!(ids[0], "P");
    assert!(ids.contains(&"A".to_string()));
    assert!(ids.contains(&"B".to_string()));
    assert!(ids.contains(&"C".to_string()));
    assert!(!ids.contains(&"X".to_string()));
    assert_eq!(ids.len(), 4);
}

#[test]
fn folder_paths_rebuild_from_parent_links() {
    let mut by_id: AssocMap<FolderNode> = AssocMap::new();
    by_id.insert("A".to_string(), node("A", Some("P"), "a"));
    by_id.insert("B".to_string(), node("B", Some("A"), "b"));
    by_id.insert("R".to_string(), node("R", None, "r"));
    assert_eq!(folder_rel_from_tree("P", "P", &by_id), Some("".to_string()));
    assert_eq!(folder_rel_from_tree("P", "A", &by_id), Some("a".to_string()));
    assert_eq!(folder_rel_from_tree("P", "B", &by_id), Some("a/b".to_string()));
    // A top-level folder that is not the project has no path under it.
    assert_eq!(folder_rel_from_tree("P", "R", &by_id), None);
    // An id absent from the tree has none either.
    assert_eq!(folder_rel_from_tree("P", "Z", &by_id), None);
}

#[test]
fn supervisors_run_once_per_project() {
    let mut reg = Registry::new();
    assert!(reg.try_register("/v|P".to_string()));
    assert!(!reg.try_register("/v|P".to_string()));
    assert!(reg.try_register("/v|Q".to_string()));
    assert!(reg.is_registered("/v|P"));
    let drained = reg.drain();
    assert_eq!(drained, vec!["/v|P".to_string(), "/v|Q".to_string()]);
    assert!(!reg.is_registered("/v|P"));
    assert!(reg.try_register("/v|P".to_string()));
}

#[test]
fn ingest_validates_and_pages() {
    let req = RagIngestRequest {
        project_folder_id: "P".to_string(),
        access_token: "tok".to_string(),
        api_base_url: "https://api.example/".to_string(),
    };
    let base = validate_ingest_request(&req).unwrap();
    assert_eq!(base, "https://api.example");
    assert_eq!(ingest_url(&base), "https://api.example/api/rag/ingest-jwt");

    let bad = RagIngestRequest { api_base_url: "  ".to_string(), ..req_clone(&req) };
    assert_eq!(validate_ingest_request(&bad).unwrap_err(), "api_base_url is required");
    let bad = RagIngestRequest { project_folder_id: "".to_string(), ..req_clone(&req) };
    assert_eq!(
        validate_ingest_request(&bad).unwrap_err(),
        "project_folder_id is required"
    );
    let bad = RagIngestRequest { access_token: "".to_string(), ..req_clone(&req) };
    assert_eq!(validate_ingest_request(&bad).unwrap_err(), "access_token is required");

    match ingest_step(0, true, 0) {
        IngestStep::Finish => {}
        _ => panic!("done finishes"),
    }
    match ingest_step(3, false, 3) {
        IngestStep::Stalled => {}
        _ => panic!("a stuck cursor stalls"),
    }
    match ingest_step(3, false, 7) {
        IngestStep::Continue(c) => assert_eq!(c, 7),
        _ => panic!("an advanced cursor continues"),
    }
    assert_eq!(ingest_stalled_error(42), "RAG ingest stalled at cursor 42");
}

fn req_clone(r: &RagIngestRequest) -> RagIngestRequest {
    RagIngestRequest {
        project_folder_id: r.project_folder_id.clone(),
        access_token: r.access_token.clone(),
        api_base_url: r.api_base_url.clone(),
    }
}

#[test]
fn snapshot_exports_only_on_advance() {
    // Never exported: export, at the row's timestamp.
    let r = rag_export_decide(&Some("2024-02-01T00:00:00Z".to_string()), "", "now");
    assert_eq!(r, Some("2024-02-01T00:00:00Z".to_string()));
    // The remote snapshot advanced past the last export: export again.
    let r = rag_export_decide(
        &Some("2024-02-01T00:00:00Z".to_string()),
        "2024-01-01T00:00:00Z",
        "now",
    );
    assert_eq!(r, Some("2024-02-01T00:00:00Z".to_string()));
    // No advance: skip.
    let r = rag_export_decide(
        &Some("2024-01-01T00:00:00Z".to_string()),
        "2024-01-01T00:00:00Z",
        "now",
    );
    assert_eq!(r, None);
    // A row without a timestamp counts as updated now.
    let r = rag_export_decide(&None, "", "2024-03-01T00:00:00Z");
    assert_eq!(r, Some("2024-03-01T00:00:00Z".to_string()));
}

#[test]
fn events_carry_their_fields() {
    let ev = SyncEvent::new(
        "t".to_string(),
        "push".to_string(),
        "a.md".to_string(),
        "Upserted remote file_id=f".to_string(),
    );
    assert_eq!(ev.ts, "t");
    assert_eq!(ev.kind, "push");
    assert_eq!(ev.path, "a.md");
    assert_eq!(ev.detail, "Upserted remote file_id=f");
}
