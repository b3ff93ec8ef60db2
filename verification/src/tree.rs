//! The remote folder tree as the pull engine sees it: the subtree of ids
//! below the project root, and the reconstruction of a folder's relative
//! path by walking parent links.
use vstd::prelude::*;
use vstd::string::*;
use crate::assoc::AssocMap;
use crate::strutil::{join_parts, join_with, seq_contains_str, str_eq, vec_contains_str};

verus! {

/// Mathematical value of a remote folder row.
#[verifier::ext_equal]
pub struct FolderNodeModel {
    pub id: Seq<char>,
    pub parent_id: Option<Seq<char>>,
    pub name: Seq<char>,
}

/// One remote folder row: its id, its parent (none at the top level), and
/// its name.
pub struct FolderNode {
    pub id: String,
    pub parent_id: Option<String>,
    pub name: String,
}

impl DeepView for FolderNode {
    type V = FolderNodeModel;

    open spec fn deep_view(&self) -> FolderNodeModel {
        FolderNodeModel {
            id: self.id@,
            parent_id: match self.parent_id {
                Some(p) => Some(p@),
                None => None,
            },
            name: self.name@,
        }
    }
}

impl Clone for FolderNode {
    fn clone(&self) -> (r: Self)
        ensures
            r.deep_view() == self.deep_view(),
    {
        let r = FolderNode {
            id: self.id.clone(),
            parent_id: match &self.parent_id {
                Some(p) => Some(p.clone()),
                None => None,
            },
            name: self.name.clone(),
        };
        proof {
            assert(r.deep_view() =~= self.deep_view());
        }
        r
    }
}

/// No two elements are equal.
pub open spec fn distinct_seqs(ov: Seq<Seq<char>>) -> bool {
    forall|p: int, q: int| 0 <= p < q < ov.len() ==> ov[p] != ov[q]
}

/// Every element after the first is the id of a listed folder whose parent
/// occurs earlier.
pub open spec fn sound_chain(ov: Seq<Seq<char>>, fv: Seq<FolderNodeModel>) -> bool {
    forall|k: int|
        #![trigger ov[k]]
        1 <= k < ov.len() ==> exists|fi: int|
            0 <= fi < fv.len() && #[trigger] fv[fi].id == ov[k] && fv[fi].parent_id is Some
                && seq_contains_str(ov.take(k), (fv[fi].parent_id)->0)
}

/// Every folder whose parent is among the first `i` elements of `base` has
/// its id in `ov`.
pub open spec fn covered_upto(
    base: Seq<Seq<char>>,
    ov: Seq<Seq<char>>,
    fv: Seq<FolderNodeModel>,
    i: int,
) -> bool {
    forall|fi: int, jj: int|
        0 <= fi < fv.len() && 0 <= jj < i && (#[trigger] fv[fi].parent_id) == Some(
            #[trigger] base[jj],
        ) ==> seq_contains_str(ov, fv[fi].id)
}

/// Every folder among the first `j` whose parent is `cur` has its id in
/// `ov`.
pub open spec fn cur_children_covered(
    ov: Seq<Seq<char>>,
    fv: Seq<FolderNodeModel>,
    cur: Seq<char>,
    j: int,
) -> bool {
    forall|fi: int|
        0 <= fi < j && (#[trigger] fv[fi].parent_id) == Some(cur) ==> seq_contains_str(
            ov,
            fv[fi].id,
        )
}

proof fn lemma_out_bound(ov: Seq<Seq<char>>, fv: Seq<FolderNodeModel>)
    requires
        ov.len() >= 1,
        distinct_seqs(ov),
        sound_chain(ov, fv),
    ensures
        ov.len() <= fv.len() + 1,
{
    let tail = ov.skip(1);
    assert(forall|p: int, q: int| 0 <= p < q < tail.len() ==> tail[p] != tail[q]) by {
        assert(forall|p: int| 0 <= p < tail.len() ==> tail[p] == ov[p + 1]);
    }
    tail.unique_seq_to_set();
    let ids = fv.map_values(|f: FolderNodeModel| f.id);
    ids.lemma_cardinality_of_set();
    assert forall|x: Seq<char>| tail.to_set().contains(x) implies ids.to_set().contains(x) by {
        let k = choose|k: int| 0 <= k < tail.len() && tail[k] == x;
        assert(tail[k] == ov[k + 1]);
        let fi = choose|fi: int|
            0 <= fi < fv.len() && #[trigger] fv[fi].id == ov[k + 1] && fv[fi].parent_id is Some
                && seq_contains_str(ov.take(k + 1), (fv[fi].parent_id)->0);
        assert(ids[fi] == x);
        assert(ids.contains(x));
    }
    assert(tail.to_set().subset_of(ids.to_set()));
    vstd::seq_lib::seq_to_set_is_finite(ids);
    vstd::set_lib::lemma_len_subset(tail.to_set(), ids.to_set());
}

/// The folder ids reachable from the project root by parent links,
/// root first. The result has no duplicates; every id after the root is the
/// id of a listed folder whose parent appears earlier in the result; and
/// every folder whose parent made it into the result is in the result too —
/// so the result is exactly the project's subtree.
#[verifier::rlimit(50)]
pub fn compute_subtree_folder_ids(project_folder_id: &str, folders: &Vec<FolderNode>) -> (r: Vec<
    String,
>)
    ensures
        ({
            let rv = r@.map_values(|x: String| x@);
            let fv = folders.deep_view();
            &&& rv.len() >= 1
            &&& rv[0] == project_folder_id@
            &&& distinct_seqs(rv)
            &&& sound_chain(rv, fv)
            &&& (forall|fi: int|
                0 <= fi < fv.len() && fv[fi].parent_id is Some && seq_contains_str(
                    rv,
                    (#[trigger] fv[fi].parent_id)->0,
                ) ==> seq_contains_str(rv, fv[fi].id))
        }),
{
    let ghost fv = folders.deep_view();
    let nf = folders.len();
    let mut out: Vec<String> = Vec::new();
    out.push(project_folder_id.to_owned());
    let mut i: usize = 0;
    while i < out.len()
        invariant
            fv == folders.deep_view(),
            nf == folders@.len(),
            ({
                let ov = out@.map_values(|x: String| x@);
                &&& ov.len() >= 1
                &&& ov.len() <= nf + 1
                &&& ov[0] == project_folder_id@
                &&& i <= ov.len()
                &&& distinct_seqs(ov)
                &&& sound_chain(ov, fv)
                &&& covered_upto(ov, ov, fv, i as int)
            }),
        decreases nf + 1 - i,
    {
        let ghost ov0 = out@.map_values(|x: String| x@);
        let cur = out[i].clone();
        proof {
            assert(cur@ == ov0[i as int]);
        }
        let mut j: usize = 0;
        while j < nf
            invariant
                fv == folders.deep_view(),
                nf == folders@.len(),
                j <= nf,
                i < ov0.len(),
                cur@ == ov0[i as int],
                ({
                    let ov = out@.map_values(|x: String| x@);
                    &&& ov.len() >= ov0.len()
                    &&& ov.take(ov0.len() as int) =~= ov0
                    &&& distinct_seqs(ov)
                    &&& sound_chain(ov, fv)
                    &&& covered_upto(ov0, ov, fv, i as int)
                    &&& cur_children_covered(ov, fv, cur@, j as int)
                }),
            decreases nf - j,
        {
            let f: &FolderNode = &folders[j];
            proof {
                assert(f.deep_view() == fv[j as int]);
            }
            let matches_parent: bool = match &f.parent_id {
                Some(pid) => str_eq(pid.as_str(), cur.as_str()),
                None => false,
            };
            proof {
                assert(matches_parent == (fv[j as int].parent_id == Some(cur@)));
            }
            if matches_parent {
                if !vec_contains_str(&out, f.id.as_str()) {
                    let ghost ovb = out@.map_values(|x: String| x@);
                    out.push(f.id.clone());
                    proof {
                        let ov = out@.map_values(|x: String| x@);
                        assert(ov =~= ovb.push(f.id@));
                        assert(forall|p: int| 0 <= p < ovb.len() ==> ov[p] == ovb[p]);
                        assert(ov.take(ov0.len() as int) =~= ovb.take(ov0.len() as int));
                        let kn = ov.len() - 1;
                        assert(ov[kn] == fv[j as int].id);
                        // distinctness: the pushed id was not present
                        assert forall|p: int, q: int| 0 <= p < q < ov.len() implies ov[p]
                            != ov[q] by {
                            if q == kn {
                                assert(!seq_contains_str(ovb, fv[j as int].id));
                                assert(ov[p] == ovb[p]);
                            }
                        }
                        // the chain stays sound: old witnesses survive, the
                        // new element has parent cur at position i < kn
                        assert forall|k: int|
                            #![trigger ov[k]]
                            1 <= k < ov.len() implies exists|fi: int|
                            0 <= fi < fv.len() && #[trigger] fv[fi].id == ov[k]
                                && fv[fi].parent_id is Some && seq_contains_str(
                                ov.take(k),
                                (fv[fi].parent_id)->0,
                            ) by {
                            if k < kn {
                                assert(ovb[k] == ov[k]);
                                let fi = choose|fi: int|
                                    0 <= fi < fv.len() && #[trigger] fv[fi].id == ovb[k]
                                        && fv[fi].parent_id is Some && seq_contains_str(
                                        ovb.take(k),
                                        (fv[fi].parent_id)->0,
                                    );
                                assert(ov.take(k) =~= ovb.take(k));
                                assert(fv[fi].id == ov[k] && fv[fi].parent_id is Some
                                    && seq_contains_str(ov.take(k), (fv[fi].parent_id)->0));
                            } else {
                                assert(ov.take(kn)[i as int] == cur@);
                                assert(seq_contains_str(ov.take(kn), (fv[j as int].parent_id)->0));
                                assert(fv[j as int].id == ov[k] && fv[j as int].parent_id is Some);
                            }
                        }
                        // coverage statements survive because membership does
                        assert forall|x: Seq<char>| seq_contains_str(ovb, x) implies
                            seq_contains_str(ov, x) by {
                            let p = choose|p: int| 0 <= p < ovb.len() && ovb[p] == x;
                            assert(ov[p] == x);
                        }
                        assert(seq_contains_str(ov, fv[j as int].id));
                    }
                } else {
                    proof {
                        assert(seq_contains_str(out@.map_values(|x: String| x@), fv[j as int].id));
                    }
                }
            }
            j += 1;
        }
        i += 1;
        proof {
            let ov = out@.map_values(|x: String| x@);
            assert forall|fi: int, jj: int|
                0 <= fi < fv.len() && 0 <= jj < i && (#[trigger] fv[fi].parent_id) == Some(
                    #[trigger] ov[jj],
                ) implies seq_contains_str(ov, fv[fi].id) by {
                assert(ov[jj] == ov0[jj]);
                if jj < i - 1 {
                    assert(covered_upto(ov0, ov, fv, i - 1));
                } else {
                    assert(ov[jj] == cur@);
                    assert(cur_children_covered(ov, fv, cur@, nf as int));
                }
            }
            lemma_out_bound(ov, fv);
        }
    }
    proof {
        let rv = out@.map_values(|x: String| x@);
        assert forall|fi: int|
            0 <= fi < fv.len() && fv[fi].parent_id is Some && seq_contains_str(
                rv,
                (#[trigger] fv[fi].parent_id)->0,
            ) implies seq_contains_str(rv, fv[fi].id) by {
            let jj = choose|jj: int| 0 <= jj < rv.len() && rv[jj] == (fv[fi].parent_id)->0;
            assert(fv[fi].parent_id == Some(rv[jj]));
            assert(covered_upto(rv, rv, fv, i as int));
        }
    }
    out
}

/// The name chain from `cur` up to (but not including) the project root,
/// leaf first, with a walk bounded by `fuel` links. Exhausted fuel yields
/// what was collected; a missing node or a top-level node that is not the
/// project yields nothing.
pub open spec fn walk_up_spec(
    project: Seq<char>,
    cur: Seq<char>,
    m: Map<Seq<char>, FolderNodeModel>,
    fuel: nat,
) -> Option<Seq<Seq<char>>>
    decreases fuel,
{
    if fuel == 0 {
        Some(Seq::empty())
    } else if !m.contains_key(cur) {
        None
    } else {
        let node = m[cur];
        match node.parent_id {
            None => None,
            Some(pid) => if pid == project {
                Some(seq![node.name])
            } else {
                match walk_up_spec(project, pid, m, (fuel - 1) as nat) {
                    None => None,
                    Some(ps) => Some(seq![node.name] + ps),
                }
            },
        }
    }
}

fn walk_up(project: &str, cur: &str, m: &AssocMap<FolderNode>, fuel: usize) -> (r: Option<
    Vec<String>,
>)
    requires
        m.wf(),
    ensures
        match r {
            Some(v) => walk_up_spec(project@, cur@, m@, fuel as nat) == Some(
                v@.map_values(|x: String| x@),
            ),
            None => walk_up_spec(project@, cur@, m@, fuel as nat) is None,
        },
    decreases fuel,
{
    if fuel == 0 {
        let v: Vec<String> = Vec::new();
        proof {
            assert(v@.map_values(|x: String| x@) =~= Seq::<Seq<char>>::empty());
        }
        return Some(v);
    }
    match m.get(cur) {
        None => None,
        Some(node) => {
            match &node.parent_id {
                None => None,
                Some(pid) => {
                    if str_eq(pid.as_str(), project) {
                        let mut v: Vec<String> = Vec::new();
                        v.push(node.name.clone());
                        proof {
                            assert(v@.map_values(|x: String| x@) =~= seq![
                                m@[cur@].name,
                            ]);
                        }
                        Some(v)
                    } else {
                        match walk_up(project, pid.as_str(), m, fuel - 1) {
                            None => None,
                            Some(ps) => {
                                let mut v: Vec<String> = Vec::new();
                                v.push(node.name.clone());
                                let ghost psv = ps@.map_values(|x: String| x@);
                                let mut rest = ps;
                                v.append(&mut rest);
                                proof {
                                    assert(v@.map_values(|x: String| x@) =~= seq![
                                        m@[cur@].name,
                                    ] + psv);
                                }
                                Some(v)
                            },
                        }
                    }
                },
            }
        },
    }
}

/// Reverses a vector of strings.
fn reverse_strings(v: &Vec<String>) -> (r: Vec<String>)
    ensures
        r@.map_values(|x: String| x@) == v@.map_values(|x: String| x@).reverse(),
{
    let n = v.len();
    let mut out: Vec<String> = Vec::new();
    let mut i: usize = 0;
    while i < n
        invariant
            n == v@.len(),
            i <= n,
            out@.len() == i,
            ({
                let ov = out@.map_values(|x: String| x@);
                let vv = v@.map_values(|x: String| x@);
                forall|k: int| 0 <= k < i ==> #[trigger] ov[k] == vv[n - 1 - k]
            }),
        decreases n - i,
    {
        let e: &String = &v[n - 1 - i];
        let ghost ob = out@.map_values(|x: String| x@);
        proof {
            assert(v@.map_values(|x: String| x@)[n - 1 - i] == v@[n - 1 - i]@);
        }
        out.push(e.clone());
        proof {
            let oa = out@.map_values(|x: String| x@);
            assert(oa =~= ob.push(e@));
            assert(forall|k: int| 0 <= k < i ==> oa[k] == ob[k]);
            assert(oa[i as int] == e@);
        }
        i += 1;
    }
    proof {
        assert(out@.map_values(|x: String| x@) =~= v@.map_values(|x: String| x@).reverse());
    }
    out
}

/// The relative path of a remote folder, rebuilt from the fetched tree by
/// walking up to the project root through at most 64 links: the joined
/// names, top first. The project root itself is the empty path.
pub open spec fn spec_folder_rel_from_tree(
    project: Seq<char>,
    folder: Seq<char>,
    m: Map<Seq<char>, FolderNodeModel>,
) -> Option<Seq<char>> {
    if folder == project {
        Some(Seq::empty())
    } else {
        match walk_up_spec(project, folder, m, 64) {
            None => None,
            Some(ps) => Some(join_with(ps.reverse(), "/"@)),
        }
    }
}

/// Rebuilds a folder's relative path from the fetched tree.
pub fn folder_rel_from_tree(
    project_folder_id: &str,
    folder_id: &str,
    folders_by_id: &AssocMap<FolderNode>,
) -> (r: Option<String>)
    requires
        folders_by_id.wf(),
    ensures
        match r {
            Some(s) => spec_folder_rel_from_tree(project_folder_id@, folder_id@, folders_by_id@)
                == Some(s@),
            None => spec_folder_rel_from_tree(project_folder_id@, folder_id@, folders_by_id@)
                is None,
        },
{
    if str_eq(folder_id, project_folder_id) {
        let e = String::new();
        proof {
            assert(e@ =~= Seq::<char>::empty());
        }
        return Some(e);
    }
    match walk_up(project_folder_id, folder_id, folders_by_id, 64) {
        None => None,
        Some(parts) => {
            let rev = reverse_strings(&parts);
            Some(join_parts(&rev, "/"))
        },
    }
}

} // verus!
