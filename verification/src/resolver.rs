//! The folder path resolver: walks a relative folder path segment by
//! segment, reusing ids the mapping already knows, and asking the caller to
//! look up or create a remote folder only for unknown prefixes. This is the
//! only place that writes into `mapping.folders`.
use vstd::prelude::*;
use vstd::string::*;
use crate::mapping::SyncMappingV1;
use crate::strutil::{
    extend_rel, is_blank, join_segs, lemma_join_extend, lemma_join_len,
    lemma_split_segments_nonempty, spec_split, split_segments,
};

verus! {

/// What the resolver needs next: either the id of the full path, or one
/// remote lookup of `name` under `parent_id`.
pub enum ResolverStep {
    Done(String),
    Lookup { parent_id: String, name: String },
}

/// Resolution in progress: the split path, how far it is resolved, and the
/// id of the deepest resolved prefix.
pub struct FolderResolver {
    segs: Vec<String>,
    idx: usize,
    parent_id: String,
    current_rel: String,
    created: usize,
    reused: usize,
}

impl FolderResolver {
    /// The path segments being resolved.
    pub closed spec fn segs_view(self) -> Seq<Seq<char>> {
        self.segs@.map_values(|x: String| x@)
    }

    pub closed spec fn idx_spec(self) -> int {
        self.idx as int
    }

    /// How many folders were created remotely during this resolution.
    pub closed spec fn created_spec(self) -> int {
        self.created as int
    }

    /// How many folders were found remotely and recorded during this
    /// resolution.
    pub closed spec fn reused_spec(self) -> int {
        self.reused as int
    }

    pub fn created_count(&self) -> (r: usize)
        ensures
            r == self.created_spec(),
    {
        self.created
    }

    pub fn reused_count(&self) -> (r: usize)
        ensures
            r == self.reused_spec(),
    {
        self.reused
    }

    /// The resolver walks hand in hand with the mapping: the deepest
    /// resolved prefix is recorded in `mapping.folders` with id
    /// `parent_id`, as is every shorter prefix.
    pub closed spec fn inv(self, mapping: SyncMappingV1) -> bool {
        &&& mapping.wf()
        &&& self.idx <= self.segs_view().len()
        &&& (forall|i: int|
            0 <= i < self.segs_view().len() ==> #[trigger] self.segs_view()[i].len() > 0)
        &&& self.current_rel@ == join_segs(self.segs_view().take(self.idx as int))
        &&& mapping.folders@.contains_key(self.current_rel@)
        &&& mapping.folders@[self.current_rel@] == self.parent_id@
        &&& (forall|k: int|
            1 <= k <= self.idx ==> mapping.folders@.contains_key(
                join_segs(#[trigger] self.segs_view().take(k)),
            ))
        &&& self.created + self.reused <= self.idx
    }

    /// Law: the resolver never creates (nor records) more folders than the
    /// path has segments.
    pub proof fn lemma_bounded_work(self, mapping: SyncMappingV1)
        requires
            self.inv(mapping),
        ensures
            self.created_spec() + self.reused_spec() <= self.segs_view().len(),
    {
    }

    /// Begins resolving `rel_folder_path` from the project root. A blank
    /// path has no segments and resolves to the project root id at once.
    pub fn start(mapping: &SyncMappingV1, rel_folder_path: &str) -> (r: Self)
        requires
            mapping.wf(),
        ensures
            r.inv(*mapping),
            r.idx_spec() == 0,
            !crate::strutil::spec_is_blank(rel_folder_path@) ==> r.segs_view() == spec_split(
                rel_folder_path@,
            ),
            crate::strutil::spec_is_blank(rel_folder_path@) ==> r.segs_view().len() == 0,
            r.created_spec() == 0,
            r.reused_spec() == 0,
    {
        let segs: Vec<String> = if is_blank(rel_folder_path) {
            Vec::new()
        } else {
            split_segments(rel_folder_path)
        };
        proof {
            lemma_split_segments_nonempty(rel_folder_path@);
        }
        let current_rel = String::new();
        let parent_id = mapping.project_folder_id.clone();
        let r = FolderResolver { segs, idx: 0, parent_id, current_rel, created: 0, reused: 0 };
        proof {
            assert(r.segs_view().take(0) =~= Seq::<Seq<char>>::empty());
            assert(r.current_rel@ =~= Seq::<char>::empty());
        }
        r
    }

    /// Consumes every next segment the mapping already knows. Stops either
    /// at the end of the path, yielding the id of the full path, or at the
    /// first prefix absent from the mapping, yielding the lookup the caller
    /// must make remotely. In particular: when every prefix of the path is
    /// already recorded — as after a completed resolution — this returns
    /// `Done` and no remote work is requested at all.
    pub fn step(&mut self, mapping: &SyncMappingV1) -> (r: ResolverStep)
        requires
            old(self).inv(*mapping),
        ensures
            final(self).inv(*mapping),
            final(self).segs_view() == old(self).segs_view(),
            final(self).created_spec() == old(self).created_spec(),
            final(self).reused_spec() == old(self).reused_spec(),
            old(self).idx_spec() <= final(self).idx_spec(),
            match r {
                ResolverStep::Done(id) => {
                    &&& final(self).idx_spec() == final(self).segs_view().len()
                    &&& mapping.folders@.contains_key(join_segs(final(self).segs_view()))
                    &&& id@ == mapping.folders@[join_segs(final(self).segs_view())]
                    &&& (final(self).segs_view().len() == 0 ==> id@ == mapping.project_folder_id@)
                },
                ResolverStep::Lookup { parent_id, name } => {
                    &&& final(self).idx_spec() < final(self).segs_view().len()
                    &&& name@ == final(self).segs_view()[final(self).idx_spec()]
                    &&& !mapping.folders@.contains_key(
                        join_segs(final(self).segs_view().take(final(self).idx_spec() + 1)),
                    )
                    &&& mapping.folders@.contains_key(
                        join_segs(final(self).segs_view().take(final(self).idx_spec())),
                    )
                    &&& parent_id@ == mapping.folders@[join_segs(
                        final(self).segs_view().take(final(self).idx_spec()),
                    )]
                },
            },
            (forall|k: int|
                1 <= k <= old(self).segs_view().len() ==> mapping.folders@.contains_key(
                    join_segs(#[trigger] old(self).segs_view().take(k)),
                )) ==> r is Done,
    {
        let ghost sv = self.segs_view();
        let n = self.segs.len();
        while self.idx < n
            invariant
                n == self.segs@.len(),
                sv == old(self).segs_view(),
                self.inv(*mapping),
                self.segs_view() == sv,
                self.created == old(self).created_spec(),
                self.reused == old(self).reused_spec(),
                old(self).idx_spec() <= self.idx_spec(),
            decreases n - self.idx,
        {
            let seg: &String = &self.segs[self.idx];
            proof {
                assert(sv[self.idx as int] == self.segs@[self.idx as int]@);
                lemma_join_extend(sv, self.idx as int);
            }
            let next_rel = extend_rel(self.current_rel.as_str(), seg.as_str());
            proof {
                assert(next_rel@ == join_segs(sv.take(self.idx + 1)));
            }
            match mapping.folders.get(next_rel.as_str()) {
                Some(id) => {
                    self.parent_id = id.clone();
                    self.current_rel = next_rel;
                    self.idx = self.idx + 1;
                },
                None => {
                    proof {
                        let k = self.idx as int + 1;
                        assert(join_segs(old(self).segs_view().take(k)) == join_segs(sv.take(k)));
                    }
                    return ResolverStep::Lookup {
                        parent_id: self.parent_id.clone(),
                        name: seg.clone(),
                    };
                },
            }
        }
        proof {
            assert(sv.take(self.idx as int) =~= sv);
        }
        ResolverStep::Done(self.parent_id.clone())
    }

    /// Records a remote folder id for the next segment — found by lookup
    /// (`was_created` false) or freshly created (`was_created` true) — and
    /// advances past it. Only this mutation ever writes `mapping.folders`.
    pub fn record(&mut self, mapping: &mut SyncMappingV1, id: String, was_created: bool)
        requires
            old(self).inv(*old(mapping)),
            old(self).idx_spec() < old(self).segs_view().len(),
        ensures
            final(self).inv(*final(mapping)),
            final(self).segs_view() == old(self).segs_view(),
            final(self).idx_spec() == old(self).idx_spec() + 1,
            final(self).created_spec() == old(self).created_spec() + if was_created {
                1int
            } else {
                0int
            },
            final(self).reused_spec() == old(self).reused_spec() + if was_created {
                0int
            } else {
                1int
            },
            final(mapping).wf(),
            crate::mapping::same_identity(*final(mapping), *old(mapping)),
            final(mapping).folders@ == old(mapping).folders@.insert(
                join_segs(old(self).segs_view().take(old(self).idx_spec() + 1)),
                id@,
            ),
            final(mapping).files@ == old(mapping).files@,
            final(mapping).resources@ == old(mapping).resources@,
            final(mapping).updated_at == old(mapping).updated_at,
            final(mapping).last_pull_at == old(mapping).last_pull_at,
            final(mapping).last_rag_export_at == old(mapping).last_rag_export_at,
    {
        let ghost sv = self.segs_view();
        let n = self.segs.len();
        let seg: &String = &self.segs[self.idx];
        proof {
            assert(sv[self.idx as int] == self.segs@[self.idx as int]@);
            lemma_join_extend(sv, self.idx as int);
        }
        let next_rel = extend_rel(self.current_rel.as_str(), seg.as_str());
        proof {
            assert(next_rel@ == join_segs(sv.take(self.idx + 1)));
            assert(forall|i: int| 0 <= i < sv.take(self.idx + 1).len() ==> #[trigger] sv.take(
                self.idx + 1,
            )[i].len() > 0);
            lemma_join_len(sv.take(self.idx + 1));
            assert(next_rel@.len() > 0);
        }
        mapping.folders.insert(next_rel.clone(), id.clone());
        self.parent_id = id;
        self.current_rel = next_rel;
        self.idx = self.idx + 1;
        if was_created {
            self.created = self.created + 1;
        } else {
            self.reused = self.reused + 1;
        }
        proof {
            assert(mapping.folders@[Seq::<char>::empty()] == old(
                mapping,
            ).folders@[Seq::<char>::empty()]);
            assert(forall|k: int|
                1 <= k <= old(self).idx_spec() ==> mapping.folders@.contains_key(
                    join_segs(#[trigger] sv.take(k)),
                ));
        }
    }
}

} // verus!
