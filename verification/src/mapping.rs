//! The durable mapping record: the local ↔ remote correspondence for one
//! vault, and the decision logic of `sync_init`.
use vstd::prelude::*;
use vstd::string::*;
use crate::assoc::AssocMap;
use crate::strutil::{is_blank, spec_is_blank, str_eq};

verus! {

/// Mathematical value of a file mapping entry.
#[verifier::ext_equal]
pub struct FileMappingModel {
    pub file_id: Seq<char>,
    pub folder_id: Seq<char>,
    pub kind: Seq<char>,
    pub local_hash: Seq<char>,
    pub remote_updated_at: Seq<char>,
}

/// One synced file: its remote row, the folder it sits in, its document
/// kind, the hash of the bytes last aligned locally, and the remote
/// timestamp observed at that moment.
pub struct FileMappingV1 {
    pub file_id: String,
    pub folder_id: String,
    pub kind: String,
    pub local_hash: String,
    pub remote_updated_at: String,
}

impl DeepView for FileMappingV1 {
    type V = FileMappingModel;

    open spec fn deep_view(&self) -> FileMappingModel {
        FileMappingModel {
            file_id: self.file_id@,
            folder_id: self.folder_id@,
            kind: self.kind@,
            local_hash: self.local_hash@,
            remote_updated_at: self.remote_updated_at@,
        }
    }
}

impl Clone for FileMappingV1 {
    fn clone(&self) -> (r: Self)
        ensures
            r.deep_view() == self.deep_view(),
    {
        let r = FileMappingV1 {
            file_id: self.file_id.clone(),
            folder_id: self.folder_id.clone(),
            kind: self.kind.clone(),
            local_hash: self.local_hash.clone(),
            remote_updated_at: self.remote_updated_at.clone(),
        };
        proof {
            assert(r.deep_view() =~= self.deep_view());
        }
        r
    }
}

/// Mathematical value of a resource mapping entry.
#[verifier::ext_equal]
pub struct ResourceMappingModel {
    pub resource_id: Seq<char>,
    pub local_hash: Seq<char>,
    pub remote_updated_at: Seq<char>,
}

/// One materialized remote resource under `resources/…`.
pub struct ResourceMappingV1 {
    pub resource_id: String,
    pub local_hash: String,
    pub remote_updated_at: String,
}

impl DeepView for ResourceMappingV1 {
    type V = ResourceMappingModel;

    open spec fn deep_view(&self) -> ResourceMappingModel {
        ResourceMappingModel {
            resource_id: self.resource_id@,
            local_hash: self.local_hash@,
            remote_updated_at: self.remote_updated_at@,
        }
    }
}

impl Clone for ResourceMappingV1 {
    fn clone(&self) -> (r: Self)
        ensures
            r.deep_view() == self.deep_view(),
    {
        let r = ResourceMappingV1 {
            resource_id: self.resource_id.clone(),
            local_hash: self.local_hash.clone(),
            remote_updated_at: self.remote_updated_at.clone(),
        };
        proof {
            assert(r.deep_view() =~= self.deep_view());
        }
        r
    }
}

/// The per-vault mapping record, persisted as `.nexusmap/sync.json`.
pub struct SyncMappingV1 {
    pub version: u32,
    pub vault_path: String,
    pub project_folder_id: String,
    pub created_at: String,
    pub updated_at: String,
    pub last_pull_at: String,
    pub last_rag_export_at: String,
    /// Relative folder path → remote folder id; `""` maps to the project root.
    pub folders: AssocMap<String>,
    /// Relative file path → remote file mapping.
    pub files: AssocMap<FileMappingV1>,
    /// Relative resource path → remote resource mapping.
    pub resources: AssocMap<ResourceMappingV1>,
}

impl SyncMappingV1 {
    /// Well-formed: the three maps have distinct keys, the empty folder
    /// path is mapped to the project root id, and every synced file's
    /// parent folder path is itself a known folder.
    pub open spec fn wf(self) -> bool {
        &&& self.folders.wf()
        &&& self.files.wf()
        &&& self.resources.wf()
        &&& self.folders@.contains_key(Seq::empty())
        &&& self.folders@[Seq::empty()] == self.project_folder_id@
        &&& forall|rel: Seq<char>|
            #[trigger] self.files@.contains_key(rel) ==> self.folders@.contains_key(
                crate::paths::spec_parent_rel(rel),
            )
    }
}

/// The fields that only the first init ever sets; every later operation
/// carries them through unchanged.
pub open spec fn same_identity(a: SyncMappingV1, b: SyncMappingV1) -> bool {
    &&& a.version == b.version
    &&& a.vault_path == b.vault_path
    &&& a.created_at == b.created_at
    &&& a.project_folder_id == b.project_folder_id
}

/// The fresh record that a first `sync_init` creates.
pub fn new_mapping(vault_path: String, project_folder_id: String, now: String) -> (r:
    SyncMappingV1)
    ensures
        r.wf(),
        r.version == 1,
        r.vault_path@ == vault_path@,
        r.project_folder_id@ == project_folder_id@,
        r.created_at@ == now@,
        r.updated_at@ == now@,
        r.last_pull_at@.len() == 0,
        r.last_rag_export_at@.len() == 0,
        r.folders@ == Map::<Seq<char>, Seq<char>>::empty().insert(
            Seq::empty(),
            project_folder_id@,
        ),
        r.files@ == Map::<Seq<char>, FileMappingModel>::empty(),
        r.resources@ == Map::<Seq<char>, ResourceMappingModel>::empty(),
{
    let mut folders: AssocMap<String> = AssocMap::new();
    let root_id = project_folder_id.clone();
    let root_key = String::new();
    proof {
        assert(root_key@ =~= Seq::<char>::empty());
    }
    folders.insert(root_key, root_id);
    SyncMappingV1 {
        version: 1,
        vault_path,
        project_folder_id,
        created_at: now.clone(),
        updated_at: now,
        last_pull_at: String::new(),
        last_rag_export_at: String::new(),
        folders,
        files: AssocMap::new(),
        resources: AssocMap::new(),
    }
}

/// Re-asserts the root entry: the empty relative path maps to the project
/// root id.
pub fn ensure_root_folder(mapping: &mut SyncMappingV1)
    requires
        old(mapping).wf(),
    ensures
        final(mapping).wf(),
        same_identity(*final(mapping), *old(mapping)),
        final(mapping).folders@ == old(mapping).folders@.insert(
            Seq::empty(),
            old(mapping).project_folder_id@,
        ),
        final(mapping).files@ == old(mapping).files@,
        final(mapping).resources@ == old(mapping).resources@,
        final(mapping).updated_at == old(mapping).updated_at,
        final(mapping).last_pull_at == old(mapping).last_pull_at,
        final(mapping).last_rag_export_at == old(mapping).last_rag_export_at,
{
    let root_key = String::new();
    let root_id = mapping.project_folder_id.clone();
    proof {
        assert(root_key@ =~= Seq::<char>::empty());
    }
    mapping.folders.insert(root_key, root_id);
}

/// Why an init request is refused, if it is.
pub open spec fn init_rejection(
    existing: Option<SyncMappingV1>,
    vault_path: Seq<char>,
    project_folder_id: Seq<char>,
) -> Option<Seq<char>> {
    if spec_is_blank(vault_path) {
        Some("vault_path is required"@)
    } else if spec_is_blank(project_folder_id) {
        Some("project_folder_id is required"@)
    } else if existing is Some && existing.unwrap().project_folder_id@ != project_folder_id {
        Some(
            "This vault is already linked to a different NexusMap project. Remove .nexusmap/sync.json to relink."@,
        )
    } else {
        None
    }
}

/// The decision at the heart of `sync_init`: given the record already on
/// disk (if any), either refuse, return the existing record unchanged, or
/// build a fresh one. The boolean is true exactly when a fresh record was
/// built and must be persisted.
pub fn sync_init_decide(
    existing: Option<SyncMappingV1>,
    vault_path: String,
    project_folder_id: String,
    now: String,
) -> (r: Result<(SyncMappingV1, bool), String>)
    ensures
        match r {
            Err(e) => init_rejection(existing, vault_path@, project_folder_id@) == Some(e@),
            Ok(p) => init_rejection(existing, vault_path@, project_folder_id@) is None && match existing {
                Some(m) => p.0 == m && p.1 == false,
                None => p.1 == true && p.0.wf() && p.0.version == 1 && p.0.vault_path@
                    == vault_path@ && p.0.project_folder_id@ == project_folder_id@ && p.0.created_at@
                    == now@ && p.0.updated_at@ == now@ && p.0.last_pull_at@.len() == 0
                    && p.0.last_rag_export_at@.len() == 0 && p.0.folders@ == Map::<
                    Seq<char>,
                    Seq<char>,
                >::empty().insert(Seq::empty(), project_folder_id@) && p.0.files@ == Map::<
                    Seq<char>,
                    FileMappingModel,
                >::empty() && p.0.resources@ == Map::<Seq<char>, ResourceMappingModel>::empty(),
            },
        },
{
    if is_blank(vault_path.as_str()) {
        let mut e = String::new();
        e.append("vault_path is required");
        proof {
            assert(e@ =~= "vault_path is required"@);
        }
        return Err(e);
    }
    if is_blank(project_folder_id.as_str()) {
        let mut e = String::new();
        e.append("project_folder_id is required");
        proof {
            assert(e@ =~= "project_folder_id is required"@);
        }
        return Err(e);
    }
    match existing {
        Some(m) => {
            if !str_eq(m.project_folder_id.as_str(), project_folder_id.as_str()) {
                let mut e = String::new();
                e.append(
                    "This vault is already linked to a different NexusMap project. Remove .nexusmap/sync.json to relink.",
                );
                proof {
                    assert(e@
                        =~= "This vault is already linked to a different NexusMap project. Remove .nexusmap/sync.json to relink."@);
                }
                return Err(e);
            }
            Ok((m, false))
        },
        None => Ok((new_mapping(vault_path, project_folder_id, now), true)),
    }
}

/// Law: init is idempotent. A record whose project matches is never
/// rejected, so a second `sync_init` with the same project returns that
/// record itself, unchanged; one with a different project is refused with
/// the mismatch message.
pub proof fn lemma_init_idempotent(
    m: SyncMappingV1,
    vault_path: Seq<char>,
    project_folder_id: Seq<char>,
)
    requires
        !spec_is_blank(vault_path),
        !spec_is_blank(project_folder_id),
    ensures
        m.project_folder_id@ == project_folder_id ==> init_rejection(
            Some(m),
            vault_path,
            project_folder_id,
        ) is None,
        m.project_folder_id@ != project_folder_id ==> init_rejection(
            Some(m),
            vault_path,
            project_folder_id,
        ) == Some(
            "This vault is already linked to a different NexusMap project. Remove .nexusmap/sync.json to relink."@,
        ),
{
}

} // verus!
