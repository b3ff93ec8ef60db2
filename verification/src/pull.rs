//! The pull engine's decisions: what counts as a conflict, how remote rows
//! are materialized into the mapping, how paths are chosen for pulled files
//! and resources, and how entries whose remote rows disappeared are
//! reconciled away.
use vstd::prelude::*;
use vstd::string::*;
use crate::assoc::AssocMap;
use crate::hashing::sha256_hex_of;
use crate::hashing::sha256_hex_str;
use crate::mapping::{
    same_identity, FileMappingModel, FileMappingV1, ResourceMappingModel, ResourceMappingV1,
    SyncMappingV1,
};
use crate::paths::{parent_rel_of, spec_parent_rel};
use crate::strutil::{
    extend_rel, is_blank, lex_lt, seq_contains_str, spec_is_blank, str_concat, str_eq, str_lt,
    vec_contains_str,
};
use crate::types::{bump, SyncSummary};

verus! {

/// Mathematical value of a remote file row.
#[verifier::ext_equal]
pub struct RemoteFileRowModel {
    pub id: Seq<char>,
    pub name: Seq<char>,
    pub folder_id: Option<Seq<char>>,
    pub content: Option<Seq<char>>,
    pub updated_at: Option<Seq<char>>,
    pub kind: Option<Seq<char>>,
}

/// One remote file row as the range query returns it.
pub struct RemoteFileRow {
    pub id: String,
    pub name: String,
    pub folder_id: Option<String>,
    pub content: Option<String>,
    pub updated_at: Option<String>,
    pub kind: Option<String>,
}

impl DeepView for RemoteFileRow {
    type V = RemoteFileRowModel;

    open spec fn deep_view(&self) -> RemoteFileRowModel {
        RemoteFileRowModel {
            id: self.id@,
            name: self.name@,
            folder_id: match self.folder_id {
                Some(x) => Some(x@),
                None => None,
            },
            content: match self.content {
                Some(x) => Some(x@),
                None => None,
            },
            updated_at: match self.updated_at {
                Some(x) => Some(x@),
                None => None,
            },
            kind: match self.kind {
                Some(x) => Some(x@),
                None => None,
            },
        }
    }
}

/// Mathematical value of a remote resource row.
#[verifier::ext_equal]
pub struct RemoteResourceRowModel {
    pub id: Seq<char>,
    pub name: Seq<char>,
    pub markdown: Seq<char>,
    pub updated_at: Option<Seq<char>>,
    pub source_type: Option<Seq<char>>,
}

/// One remote resource row; `source_type` is the `type` string of its
/// `source` object, when the row has one.
pub struct RemoteResourceRow {
    pub id: String,
    pub name: String,
    pub markdown: String,
    pub updated_at: Option<String>,
    pub source_type: Option<String>,
}

impl DeepView for RemoteResourceRow {
    type V = RemoteResourceRowModel;

    open spec fn deep_view(&self) -> RemoteResourceRowModel {
        RemoteResourceRowModel {
            id: self.id@,
            name: self.name@,
            markdown: self.markdown@,
            updated_at: match self.updated_at {
                Some(x) => Some(x@),
                None => None,
            },
            source_type: match self.source_type {
                Some(x) => Some(x@),
                None => None,
            },
        }
    }
}

/// The range-query watermark: the last pull time, or the epoch when there
/// was none.
pub fn since_of(last_pull_at: &str) -> (r: String)
    ensures
        spec_is_blank(last_pull_at@) ==> r@ == "1970-01-01T00:00:00Z"@,
        !spec_is_blank(last_pull_at@) ==> r@ == last_pull_at@,
{
    if is_blank(last_pull_at) {
        let mut s = String::new();
        s.append("1970-01-01T00:00:00Z");
        proof {
            assert(s@ =~= "1970-01-01T00:00:00Z"@);
        }
        s
    } else {
        last_pull_at.to_owned()
    }
}

/// A pulled row conflicts with local state when the file was edited locally
/// since the last alignment (a recorded hash that the bytes on disk no
/// longer match) and the remote row is newer than the remote state last
/// seen.
pub open spec fn spec_pull_conflict(
    prev_local_hash: Seq<char>,
    prev_remote_updated: Seq<char>,
    local_hash: Seq<char>,
    remote_updated_at: Seq<char>,
) -> bool {
    prev_local_hash.len() > 0 && local_hash != prev_local_hash && prev_remote_updated.len() > 0
        && lex_lt(prev_remote_updated, remote_updated_at)
}

/// What pull does with one changed remote row.
pub enum PullRowAction {
    /// Both sides diverged: write the remote content to a conflict sibling
    /// and leave the file and its mapping entry untouched.
    Conflict,
    /// Write the remote content over the local path and record it.
    Overwrite,
}

/// Decides between conflict and overwrite. The previous hash and timestamp
/// are empty strings when the path is unmapped.
pub fn pull_row_decision(
    prev_local_hash: &str,
    prev_remote_updated: &str,
    local_hash: &str,
    remote_updated_at: &str,
) -> (r: PullRowAction)
    ensures
        r is Conflict <==> spec_pull_conflict(
            prev_local_hash@,
            prev_remote_updated@,
            local_hash@,
            remote_updated_at@,
        ),
{
    let local_modified = prev_local_hash.unicode_len() > 0 && !str_eq(local_hash, prev_local_hash);
    let remote_newer = prev_remote_updated.unicode_len() > 0 && str_lt(
        prev_remote_updated,
        remote_updated_at,
    );
    if local_modified && remote_newer {
        PullRowAction::Conflict
    } else {
        PullRowAction::Overwrite
    }
}

/// The entry a pull records after writing remote content locally: its hash
/// is the hash of the bytes just written.
pub open spec fn pulled_entry(
    file_id: Seq<char>,
    folder_id: Seq<char>,
    kind: Seq<char>,
    content: Seq<char>,
    remote_updated_at: Seq<char>,
) -> FileMappingModel {
    FileMappingModel {
        file_id: file_id,
        folder_id: folder_id,
        kind: kind,
        local_hash: sha256_hex_of(vstd::utf8::encode_utf8(content)),
        remote_updated_at: remote_updated_at,
    }
}

/// Records a pulled file after its content was written to disk, counting it
/// as created or updated by whether the path was mapped before. The file's
/// parent path is recorded as a folder mapped to the row's folder id, so the
/// record keeps its invariant that every file's parent path is a known
/// folder; the root path is always known and is never overwritten.
pub fn apply_pull_file(
    mapping: &mut SyncMappingV1,
    summary: &mut SyncSummary,
    rel: &str,
    file_id: String,
    folder_id: String,
    kind: String,
    content: &str,
    remote_updated_at: String,
)
    requires
        old(mapping).wf(),
    ensures
        final(mapping).wf(),
        same_identity(*final(mapping), *old(mapping)),
        final(mapping).files@ == old(mapping).files@.insert(
            rel@,
            pulled_entry(file_id@, folder_id@, kind@, content@, remote_updated_at@),
        ),
        final(mapping).folders@ == if spec_parent_rel(rel@).len() == 0 {
            old(mapping).folders@
        } else {
            old(mapping).folders@.insert(spec_parent_rel(rel@), folder_id@)
        },
        final(mapping).resources@ == old(mapping).resources@,
        final(mapping).updated_at == old(mapping).updated_at,
        final(mapping).last_pull_at == old(mapping).last_pull_at,
        final(mapping).last_rag_export_at == old(mapping).last_rag_export_at,
        old(mapping).files@.contains_key(rel@) ==> final(summary).files_updated
            == crate::types::spec_bumped(old(summary).files_updated) && final(summary).files_created
            == old(summary).files_created,
        !old(mapping).files@.contains_key(rel@) ==> final(summary).files_created
            == crate::types::spec_bumped(old(summary).files_created) && final(summary).files_updated
            == old(summary).files_updated,
        final(summary).files_deleted == old(summary).files_deleted,
        final(summary).resources_deleted == old(summary).resources_deleted,
        final(summary).errors@ == old(summary).errors@,
{
    let next_hash = sha256_hex_str(content);
    let was_mapped = mapping.files.contains_key(rel);
    let parent = parent_rel_of(rel);
    if parent.as_str().unicode_len() > 0 {
        mapping.folders.insert(parent, folder_id.clone());
    }
    let entry = FileMappingV1 {
        file_id,
        folder_id,
        kind,
        local_hash: next_hash,
        remote_updated_at,
    };
    mapping.files.insert(rel.to_owned(), entry);
    if was_mapped {
        bump(&mut summary.files_updated);
    } else {
        bump(&mut summary.files_created);
    }
    proof {
        assert forall|r2: Seq<char>| #[trigger] mapping.files@.contains_key(r2) implies
            mapping.folders@.contains_key(spec_parent_rel(r2)) by {
            if r2 == rel@ {
                if spec_parent_rel(rel@).len() == 0 {
                    assert(spec_parent_rel(r2) =~= Seq::<char>::empty());
                    assert(mapping.folders@.contains_key(Seq::<char>::empty()));
                }
            } else {
                assert(old(mapping).files@.contains_key(r2));
            }
        }
    }
}

/// Law: pushing content and pulling it back round-trips. Pushing bytes `b`
/// records their hash; a fresh vault pulls the same row without conflict,
/// writes content whose bytes are again `b`, and records an entry carrying
/// the same remote file id and the same hash.
pub proof fn lemma_round_trip(
    bytes: Seq<u8>,
    content: Seq<char>,
    file_id: Seq<char>,
    folder_id: Seq<char>,
    kind: Seq<char>,
    remote_ts: Seq<char>,
)
    requires
        vstd::utf8::encode_utf8(content) == bytes,
    ensures
        !spec_pull_conflict(Seq::empty(), Seq::empty(), sha256_hex_of(bytes), remote_ts),
        pulled_entry(file_id, folder_id, kind, content, remote_ts).file_id == file_id,
        pulled_entry(file_id, folder_id, kind, content, remote_ts).local_hash == sha256_hex_of(
            bytes,
        ),
{
}

/// Where a pulled resource is materialized: under `resources/`, or under
/// `resources/docling/` when its source is a docling conversion.
pub open spec fn spec_resource_rel(name: Seq<char>, source_type: Option<Seq<char>>) -> Seq<char> {
    if source_type == Some("docling"@) {
        "resources/docling/"@ + name
    } else {
        "resources/"@ + name
    }
}

pub fn resource_rel_path(name: &str, source_type: &Option<String>) -> (r: String)
    ensures
        r@ == spec_resource_rel(
            name@,
            match *source_type {
                Some(t) => Some(t@),
                None => None,
            },
        ),
{
    match source_type {
        Some(t) if str_eq(t.as_str(), "docling") => str_concat("resources/docling/", name),
        _ => str_concat("resources/", name),
    }
}

/// Records a pulled resource after its markdown was written; the recorded
/// hash is the hash of the markdown itself.
pub fn apply_pull_resource(
    mapping: &mut SyncMappingV1,
    rel: &str,
    resource_id: String,
    markdown: &str,
    remote_updated_at: String,
)
    requires
        old(mapping).wf(),
    ensures
        final(mapping).wf(),
        same_identity(*final(mapping), *old(mapping)),
        final(mapping).resources@ == old(mapping).resources@.insert(
            rel@,
            ResourceMappingModel {
                resource_id: resource_id@,
                local_hash: sha256_hex_of(vstd::utf8::encode_utf8(markdown@)),
                remote_updated_at: remote_updated_at@,
            },
        ),
        final(mapping).files@ == old(mapping).files@,
        final(mapping).folders@ == old(mapping).folders@,
        final(mapping).updated_at == old(mapping).updated_at,
        final(mapping).last_pull_at == old(mapping).last_pull_at,
        final(mapping).last_rag_export_at == old(mapping).last_rag_export_at,
{
    let content_hash = sha256_hex_str(markdown);
    let entry = ResourceMappingV1 {
        resource_id,
        local_hash: content_hash,
        remote_updated_at,
    };
    mapping.resources.insert(rel.to_owned(), entry);
}

/// The map from remote file id to the relative path mapped to it; when two
/// paths name the same id, the later entry wins.
pub fn reverse_file_map(mapping: &SyncMappingV1) -> (r: AssocMap<String>)
    requires
        mapping.wf(),
    ensures
        r.wf(),
        forall|k: Seq<char>|
            #[trigger] r@.contains_key(k) ==> mapping.files@.contains_key(r@[k])
                && mapping.files@[r@[k]].file_id == k,
        forall|rel: Seq<char>|
            #[trigger] mapping.files@.contains_key(rel) ==> r@.contains_key(
                mapping.files@[rel].file_id,
            ),
{
    let mut r: AssocMap<String> = AssocMap::new();
    let n = mapping.files.num_entries();
    let mut i: usize = 0;
    while i < n
        invariant
            mapping.wf(),
            n == mapping.files.kseq().len(),
            n == mapping.files.vseq().len(),
            i <= n,
            r.wf(),
            forall|k: Seq<char>|
                #[trigger] r@.contains_key(k) ==> mapping.files@.contains_key(r@[k])
                    && mapping.files@[r@[k]].file_id == k,
            forall|j: int|
                0 <= j < i ==> r@.contains_key(#[trigger] mapping.files.vseq()[j].file_id),
        decreases n - i,
    {
        let rel = mapping.files.key_at(i);
        let fm = mapping.files.val_at(i);
        proof {
            mapping.files.lemma_entry_in_map(i as int);
        }
        r.insert(fm.file_id.clone(), rel.clone());
        i += 1;
    }
    proof {
        assert forall|rel: Seq<char>| #[trigger] mapping.files@.contains_key(rel) implies
            r@.contains_key(mapping.files@[rel].file_id) by {
            mapping.files.lemma_contains_at(rel);
            let j = choose|j: int|
                0 <= j < mapping.files.kseq().len() && #[trigger] mapping.files.kseq()[j] == rel;
            mapping.files.lemma_entry_in_map(j);
            assert(mapping.files.vseq()[j].file_id == mapping.files@[rel].file_id);
        }
    }
    r
}

/// The relative path a pulled file lands at: the path already mapped to its
/// id when there is one — so a local rename recorded in the mapping is kept
/// — else its folder's path joined with its name.
pub fn target_rel_path(
    by_file_id: &AssocMap<String>,
    file_id: &str,
    folder_rel: &str,
    name: &str,
) -> (r: String)
    requires
        by_file_id.wf(),
    ensures
        by_file_id@.contains_key(file_id@) ==> r@ == by_file_id@[file_id@],
        !by_file_id@.contains_key(file_id@) ==> (folder_rel@.len() == 0 ==> r@ == name@)
            && (folder_rel@.len() > 0 ==> r@ == folder_rel@ + "/"@ + name@),
{
    match by_file_id.get(file_id) {
        Some(rel) => rel.clone(),
        None => {
            proof {
                reveal_strlit("/");
                assert("/"@ =~= seq!['/']);
            }
            extend_rel(folder_rel, name)
        },
    }
}

/// The first relative folder path the mapping records for a folder id.
pub fn folder_rel_lookup(mapping: &SyncMappingV1, folder_id: &str) -> (r: Option<String>)
    requires
        mapping.wf(),
    ensures
        match r {
            Some(rel) => mapping.folders@.contains_key(rel@) && mapping.folders@[rel@]
                == folder_id@,
            None => forall|rel: Seq<char>|
                #[trigger] mapping.folders@.contains_key(rel) ==> mapping.folders@[rel]
                    != folder_id@,
        },
{
    let n = mapping.folders.num_entries();
    let mut i: usize = 0;
    while i < n
        invariant
            mapping.wf(),
            n == mapping.folders.kseq().len(),
            n == mapping.folders.vseq().len(),
            i <= n,
            forall|j: int| 0 <= j < i ==> #[trigger] mapping.folders.vseq()[j] != folder_id@,
        decreases n - i,
    {
        let v = mapping.folders.val_at(i);
        if str_eq(v.as_str(), folder_id) {
            proof {
                mapping.folders.lemma_entry_in_map(i as int);
            }
            return Some(mapping.folders.key_at(i).clone());
        }
        i += 1;
    }
    proof {
        assert forall|rel: Seq<char>| #[trigger] mapping.folders@.contains_key(rel) implies
            mapping.folders@[rel] != folder_id@ by {
            mapping.folders.lemma_contains_at(rel);
            let j = choose|j: int|
                0 <= j < mapping.folders.kseq().len() && #[trigger] mapping.folders.kseq()[j]
                    == rel;
            mapping.folders.lemma_entry_in_map(j);
        }
    }
    None
}

/// Removes every file entry whose remote row is gone — its id no longer
/// among the ids the remote currently holds — and returns the removed
/// relative paths, for archival. Entries whose rows survive are untouched.
pub fn reconcile_deleted_files(mapping: &mut SyncMappingV1, remote_ids: &Vec<String>) -> (removed:
    Vec<String>)
    requires
        old(mapping).wf(),
    ensures
        final(mapping).wf(),
        ({
            let idv = remote_ids@.map_values(|x: String| x@);
            let rmv = removed@.map_values(|x: String| x@);
            &&& (forall|rel: Seq<char>|
                #[trigger] final(mapping).files@.contains_key(rel) <==> old(
                    mapping,
                ).files@.contains_key(rel) && seq_contains_str(
                    idv,
                    old(mapping).files@[rel].file_id,
                ))
            &&& (forall|rel: Seq<char>|
                #[trigger] final(mapping).files@.contains_key(rel) ==> final(mapping).files@[rel]
                    == old(mapping).files@[rel])
            &&& (forall|k: int|
                0 <= k < rmv.len() ==> old(mapping).files@.contains_key(#[trigger] rmv[k])
                    && !seq_contains_str(idv, old(mapping).files@[rmv[k]].file_id))
            &&& (forall|rel: Seq<char>|
                old(mapping).files@.contains_key(rel) && !seq_contains_str(
                    idv,
                    old(mapping).files@[rel].file_id,
                ) ==> seq_contains_str(rmv, rel))
            &&& (forall|p: int, q: int| 0 <= p < q < rmv.len() ==> rmv[p] != rmv[q])
        }),
        same_identity(*final(mapping), *old(mapping)),
        final(mapping).folders@ == old(mapping).folders@,
        final(mapping).resources@ == old(mapping).resources@,
        final(mapping).updated_at == old(mapping).updated_at,
        final(mapping).last_pull_at == old(mapping).last_pull_at,
        final(mapping).last_rag_export_at == old(mapping).last_rag_export_at,
{
    let ghost idv = remote_ids@.map_values(|x: String| x@);
    let mut removed: Vec<String> = Vec::new();
    let n = mapping.files.num_entries();
    let mut i: usize = 0;
    while i < n
        invariant
            mapping.wf(),
            idv == remote_ids@.map_values(|x: String| x@),
            n == mapping.files.kseq().len(),
            n == mapping.files.vseq().len(),
            i <= n,
            ({
                let rmv = removed@.map_values(|x: String| x@);
                &&& (forall|k: int|
                    0 <= k < rmv.len() ==> mapping.files@.contains_key(#[trigger] rmv[k])
                        && !seq_contains_str(idv, mapping.files@[rmv[k]].file_id))
                &&& (forall|j: int|
                    0 <= j < i && !seq_contains_str(
                        idv,
                        (#[trigger] mapping.files.vseq()[j]).file_id,
                    ) ==> seq_contains_str(rmv, mapping.files.kseq()[j]))
                &&& (forall|k: int|
                    #![trigger rmv[k]]
                    0 <= k < rmv.len() ==> exists|j: int|
                        0 <= j < i && #[trigger] mapping.files.kseq()[j] == rmv[k])
                &&& (forall|p: int, q: int| 0 <= p < q < rmv.len() ==> rmv[p] != rmv[q])
            }),
        decreases n - i,
    {
        let ghost rmb = removed@.map_values(|x: String| x@);
        let fm = mapping.files.val_at(i);
        if !vec_contains_str(remote_ids, fm.file_id.as_str()) {
            proof {
                mapping.files.lemma_entry_in_map(i as int);
            }
            removed.push(mapping.files.key_at(i).clone());
            proof {
                let rmv = removed@.map_values(|x: String| x@);
                assert(rmv =~= rmb.push(mapping.files.kseq()[i as int]));
                assert(forall|p: int| 0 <= p < rmb.len() ==> rmv[p] == rmb[p]);
                assert(rmv[rmb.len() as int] == mapping.files.kseq()[i as int]);
                assert forall|x: Seq<char>| seq_contains_str(rmb, x) implies seq_contains_str(
                    rmv,
                    x,
                ) by {
                    let p = choose|p: int| 0 <= p < rmb.len() && rmb[p] == x;
                    assert(rmv[p] == x);
                }
                assert(seq_contains_str(rmv, mapping.files.kseq()[i as int]));
            }
        }
        i += 1;
        proof {
            let rmv = removed@.map_values(|x: String| x@);
            // every collected key sits at some already-scanned position
            assert forall|k: int|
                #![trigger rmv[k]]
                0 <= k < rmv.len() implies exists|j: int|
                0 <= j < i && #[trigger] mapping.files.kseq()[j] == rmv[k] by {
                if k < rmb.len() {
                    assert(rmv[k] == rmb[k]);
                    let j = choose|j: int|
                        0 <= j < i - 1 && #[trigger] mapping.files.kseq()[j] == rmb[k];
                    assert(mapping.files.kseq()[j] == rmv[k]);
                } else {
                    assert(mapping.files.kseq()[i - 1] == rmv[k]);
                }
            }
            // distinct positions of a well-formed map carry distinct keys
            assert forall|p: int, q: int| 0 <= p < q < rmv.len() implies rmv[p] != rmv[q] by {
                if q >= rmb.len() {
                    assert(rmv[p] == rmb[p]);
                    let j = choose|j: int|
                        0 <= j < i - 1 && #[trigger] mapping.files.kseq()[j] == rmb[p];
                    assert(mapping.files.kseq()[j] != mapping.files.kseq()[i - 1]);
                }
            }
        }
    }
    // Second pass: drop the collected entries from the mapping.
    let ghost m0 = mapping.files@;
    let ghost rmv = removed@.map_values(|x: String| x@);
    proof {
        assert(m0 == old(mapping).files@);
        assert forall|rel: Seq<char>|
            m0.contains_key(rel) && !seq_contains_str(idv, m0[rel].file_id) implies
            seq_contains_str(rmv, rel) by {
            mapping.files.lemma_contains_at(rel);
            let j = choose|j: int|
                0 <= j < mapping.files.kseq().len() && #[trigger] mapping.files.kseq()[j] == rel;
            mapping.files.lemma_entry_in_map(j);
            assert(mapping.files.vseq()[j] == m0[rel]);
        }
    }
    let nr = removed.len();
    let mut t: usize = 0;
    while t < nr
        invariant
            mapping.wf(),
            nr == removed@.len(),
            rmv == removed@.map_values(|x: String| x@),
            idv == remote_ids@.map_values(|x: String| x@),
            m0 == old(mapping).files@,
            t <= nr,
            forall|k: int|
                0 <= k < rmv.len() ==> m0.contains_key(#[trigger] rmv[k]) && !seq_contains_str(
                    idv,
                    m0[rmv[k]].file_id,
                ),
            forall|rel: Seq<char>|
                m0.contains_key(rel) && !seq_contains_str(idv, m0[rel].file_id)
                    ==> seq_contains_str(rmv, rel),
            forall|p: int, q: int| 0 <= p < q < rmv.len() ==> rmv[p] != rmv[q],
            ({
                &&& (forall|rel: Seq<char>|
                    #[trigger] mapping.files@.contains_key(rel) <==> m0.contains_key(rel) && !(
                    exists|k: int| 0 <= k < t && #[trigger] rmv[k] == rel))
                &&& (forall|rel: Seq<char>|
                    #[trigger] mapping.files@.contains_key(rel) ==> mapping.files@[rel]
                        == m0[rel])
            }),
            same_identity(*mapping, *old(mapping)),
            mapping.folders@ == old(mapping).folders@,
            mapping.resources@ == old(mapping).resources@,
            mapping.updated_at == old(mapping).updated_at,
            mapping.last_pull_at == old(mapping).last_pull_at,
            mapping.last_rag_export_at == old(mapping).last_rag_export_at,
        decreases nr - t,
    {
        let rel: &String = &removed[t];
        proof {
            assert(rmv[t as int] == removed@[t as int]@);
        }
        let _ = mapping.files.remove_key(rel.as_str());
        t += 1;
    }
    proof {
        // an entry survives exactly when its id is still remote
        assert forall|rel: Seq<char>| #[trigger] mapping.files@.contains_key(rel) <==>
            m0.contains_key(rel) && seq_contains_str(idv, m0[rel].file_id) by {
            if m0.contains_key(rel) {
                if seq_contains_str(idv, m0[rel].file_id) {
                    if exists|k: int| 0 <= k < nr && #[trigger] rmv[k] == rel {
                        let k = choose|k: int| 0 <= k < nr && #[trigger] rmv[k] == rel;
                        assert(m0.contains_key(rmv[k]));
                        assert(!seq_contains_str(idv, m0[rmv[k]].file_id));
                    }
                } else {
                    assert(seq_contains_str(rmv, rel));
                    let k = choose|k: int| 0 <= k < rmv.len() && rmv[k] == rel;
                }
            }
        }
    }
    removed
}

/// Removes every resource entry whose remote row is gone, returning the
/// removed relative paths.
pub fn reconcile_deleted_resources(mapping: &mut SyncMappingV1, remote_ids: &Vec<String>) -> (removed: Vec<String>)
    requires
        old(mapping).wf(),
    ensures
        final(mapping).wf(),
        ({
            let idv = remote_ids@.map_values(|x: String| x@);
            let rmv = removed@.map_values(|x: String| x@);
            &&& (forall|rel: Seq<char>|
                #[trigger] final(mapping).resources@.contains_key(rel) <==> old(
                    mapping,
                ).resources@.contains_key(rel) && seq_contains_str(
                    idv,
                    old(mapping).resources@[rel].resource_id,
                ))
            &&& (forall|k: int|
                0 <= k < rmv.len() ==> old(mapping).resources@.contains_key(#[trigger] rmv[k])
                    && !seq_contains_str(idv, old(mapping).resources@[rmv[k]].resource_id))
            &&& (forall|rel: Seq<char>|
                old(mapping).resources@.contains_key(rel) && !seq_contains_str(
                    idv,
                    old(mapping).resources@[rel].resource_id,
                ) ==> seq_contains_str(rmv, rel))
            &&& (forall|p: int, q: int| 0 <= p < q < rmv.len() ==> rmv[p] != rmv[q])
        }),
        same_identity(*final(mapping), *old(mapping)),
        final(mapping).folders@ == old(mapping).folders@,
        final(mapping).files@ == old(mapping).files@,
        final(mapping).updated_at == old(mapping).updated_at,
        final(mapping).last_pull_at == old(mapping).last_pull_at,
        final(mapping).last_rag_export_at == old(mapping).last_rag_export_at,
{
    let ghost idv = remote_ids@.map_values(|x: String| x@);
    let mut removed: Vec<String> = Vec::new();
    let n = mapping.resources.num_entries();
    let mut i: usize = 0;
    while i < n
        invariant
            mapping.wf(),
            idv == remote_ids@.map_values(|x: String| x@),
            n == mapping.resources.kseq().len(),
            n == mapping.resources.vseq().len(),
            i <= n,
            ({
                let rmv = removed@.map_values(|x: String| x@);
                &&& (forall|k: int|
                    0 <= k < rmv.len() ==> mapping.resources@.contains_key(#[trigger] rmv[k])
                        && !seq_contains_str(idv, mapping.resources@[rmv[k]].resource_id))
                &&& (forall|j: int|
                    0 <= j < i && !seq_contains_str(
                        idv,
                        (#[trigger] mapping.resources.vseq()[j]).resource_id,
                    ) ==> seq_contains_str(rmv, mapping.resources.kseq()[j]))
                &&& (forall|k: int|
                    #![trigger rmv[k]]
                    0 <= k < rmv.len() ==> exists|j: int|
                        0 <= j < i && #[trigger] mapping.resources.kseq()[j] == rmv[k])
                &&& (forall|p: int, q: int| 0 <= p < q < rmv.len() ==> rmv[p] != rmv[q])
            }),
        decreases n - i,
    {
        let ghost rmb = removed@.map_values(|x: String| x@);
        let rm = mapping.resources.val_at(i);
        if !vec_contains_str(remote_ids, rm.resource_id.as_str()) {
            proof {
                mapping.resources.lemma_entry_in_map(i as int);
            }
            removed.push(mapping.resources.key_at(i).clone());
            proof {
                let rmv = removed@.map_values(|x: String| x@);
                assert(rmv =~= rmb.push(mapping.resources.kseq()[i as int]));
                assert(forall|p: int| 0 <= p < rmb.len() ==> rmv[p] == rmb[p]);
                assert(rmv[rmb.len() as int] == mapping.resources.kseq()[i as int]);
                assert forall|x: Seq<char>| seq_contains_str(rmb, x) implies seq_contains_str(
                    rmv,
                    x,
                ) by {
                    let p = choose|p: int| 0 <= p < rmb.len() && rmb[p] == x;
                    assert(rmv[p] == x);
                }
                assert(seq_contains_str(rmv, mapping.resources.kseq()[i as int]));
            }
        }
        i += 1;
        proof {
            let rmv = removed@.map_values(|x: String| x@);
            // every collected key sits at some already-scanned position
            assert forall|k: int|
                #![trigger rmv[k]]
                0 <= k < rmv.len() implies exists|j: int|
                0 <= j < i && #[trigger] mapping.resources.kseq()[j] == rmv[k] by {
                if k < rmb.len() {
                    assert(rmv[k] == rmb[k]);
                    let j = choose|j: int|
                        0 <= j < i - 1 && #[trigger] mapping.resources.kseq()[j] == rmb[k];
                    assert(mapping.resources.kseq()[j] == rmv[k]);
                } else {
                    assert(mapping.resources.kseq()[i - 1] == rmv[k]);
                }
            }
            // distinct positions of a well-formed map carry distinct keys
            assert forall|p: int, q: int| 0 <= p < q < rmv.len() implies rmv[p] != rmv[q] by {
                if q >= rmb.len() {
                    assert(rmv[p] == rmb[p]);
                    let j = choose|j: int|
                        0 <= j < i - 1 && #[trigger] mapping.resources.kseq()[j] == rmb[p];
                    assert(mapping.resources.kseq()[j] != mapping.resources.kseq()[i - 1]);
                }
            }
        }
    }
    let ghost m0 = mapping.resources@;
    let ghost rmv = removed@.map_values(|x: String| x@);
    proof {
        assert(m0 == old(mapping).resources@);
        assert forall|rel: Seq<char>|
            m0.contains_key(rel) && !seq_contains_str(idv, m0[rel].resource_id) implies
            seq_contains_str(rmv, rel) by {
            mapping.resources.lemma_contains_at(rel);
            let j = choose|j: int|
                0 <= j < mapping.resources.kseq().len() && #[trigger] mapping.resources.kseq()[j]
                    == rel;
            mapping.resources.lemma_entry_in_map(j);
            assert(mapping.resources.vseq()[j] == m0[rel]);
        }
    }
    let nr = removed.len();
    let mut t: usize = 0;
    while t < nr
        invariant
            mapping.wf(),
            nr == removed@.len(),
            rmv == removed@.map_values(|x: String| x@),
            idv == remote_ids@.map_values(|x: String| x@),
            m0 == old(mapping).resources@,
            t <= nr,
            forall|k: int|
                0 <= k < rmv.len() ==> m0.contains_key(#[trigger] rmv[k]) && !seq_contains_str(
                    idv,
                    m0[rmv[k]].resource_id,
                ),
            forall|rel: Seq<char>|
                m0.contains_key(rel) && !seq_contains_str(idv, m0[rel].resource_id)
                    ==> seq_contains_str(rmv, rel),
            forall|p: int, q: int| 0 <= p < q < rmv.len() ==> rmv[p] != rmv[q],
            ({
                &&& (forall|rel: Seq<char>|
                    #[trigger] mapping.resources@.contains_key(rel) <==> m0.contains_key(rel)
                        && !(exists|k: int| 0 <= k < t && #[trigger] rmv[k] == rel))
                &&& (forall|rel: Seq<char>|
                    #[trigger] mapping.resources@.contains_key(rel) ==> mapping.resources@[rel]
                        == m0[rel])
            }),
            same_identity(*mapping, *old(mapping)),
            mapping.folders@ == old(mapping).folders@,
            mapping.files@ == old(mapping).files@,
            mapping.updated_at == old(mapping).updated_at,
            mapping.last_pull_at == old(mapping).last_pull_at,
            mapping.last_rag_export_at == old(mapping).last_rag_export_at,
        decreases nr - t,
    {
        let rel: &String = &removed[t];
        proof {
            assert(rmv[t as int] == removed@[t as int]@);
        }
        let _ = mapping.resources.remove_key(rel.as_str());
        t += 1;
    }
    proof {
        assert forall|rel: Seq<char>| #[trigger] mapping.resources@.contains_key(rel) <==>
            m0.contains_key(rel) && seq_contains_str(idv, m0[rel].resource_id) by {
            if m0.contains_key(rel) {
                if seq_contains_str(idv, m0[rel].resource_id) {
                    if exists|k: int| 0 <= k < nr && #[trigger] rmv[k] == rel {
                        let k = choose|k: int| 0 <= k < nr && #[trigger] rmv[k] == rel;
                        assert(m0.contains_key(rmv[k]));
                        assert(!seq_contains_str(idv, m0[rmv[k]].resource_id));
                    }
                } else {
                    assert(seq_contains_str(rmv, rel));
                }
            }
        }
    }
    removed
}

/// Whether the knowledge-base snapshot must be re-exported: yes when it was
/// never exported, or when the remote snapshot (defaulting to `now` if it
/// carries no timestamp) is strictly newer than the last export.
pub fn rag_export_decide(row_updated_at: &Option<String>, last_export_at: &str, now: &str) -> (r:
    Option<String>)
    ensures
        ({
            let updated = match *row_updated_at {
                Some(u) => u@,
                None => now@,
            };
            if !spec_is_blank(last_export_at@) && !lex_lt(last_export_at@, updated) {
                r is None
            } else {
                r is Some && r.unwrap()@ == updated
            }
        }),
{
    let updated: String = match row_updated_at {
        Some(u) => u.clone(),
        None => now.to_owned(),
    };
    if !is_blank(last_export_at) && !str_lt(last_export_at, updated.as_str()) {
        None
    } else {
        Some(updated)
    }
}

/// Stores a completed snapshot export's timestamp.
pub fn set_last_rag_export(mapping: &mut SyncMappingV1, ts: &str)
    requires
        old(mapping).wf(),
    ensures
        final(mapping).wf(),
        same_identity(*final(mapping), *old(mapping)),
        final(mapping).last_rag_export_at@ == ts@,
        final(mapping).files@ == old(mapping).files@,
        final(mapping).folders@ == old(mapping).folders@,
        final(mapping).resources@ == old(mapping).resources@,
        final(mapping).updated_at == old(mapping).updated_at,
        final(mapping).last_pull_at == old(mapping).last_pull_at,
{
    mapping.last_rag_export_at = ts.to_owned();
}

/// Closes a pull: the high-water mark and the rewrite time both move to
/// `now`.
pub fn finish_pull(mapping: &mut SyncMappingV1, now: &str)
    requires
        old(mapping).wf(),
    ensures
        final(mapping).wf(),
        same_identity(*final(mapping), *old(mapping)),
        final(mapping).last_pull_at@ == now@,
        final(mapping).updated_at@ == now@,
        final(mapping).files@ == old(mapping).files@,
        final(mapping).folders@ == old(mapping).folders@,
        final(mapping).resources@ == old(mapping).resources@,
        final(mapping).last_rag_export_at == old(mapping).last_rag_export_at,
{
    mapping.last_pull_at = now.to_owned();
    mapping.updated_at = now.to_owned();
}

} // verus!
