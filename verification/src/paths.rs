//! Path normalization and classification: vault-internal locations,
//! relative-path computation, containment checks, exclusion rules, and the
//! conflict sibling name. Paths are POSIX-style strings with `/` separators.
use vstd::prelude::*;
use vstd::string::*;
use crate::strutil::{
    is_prefix, join_with, last_index_of, spec_split, split_segments, starts_with_str, str_eq,
};

verus! {

/// The vault's reserved internal directory.
pub fn nexusmap_dir(vault_path: &str) -> (r: String)
    ensures
        r@ == vault_path@ + "/.nexusmap"@,
{
    let mut s = String::new();
    s.append(vault_path);
    s.append("/.nexusmap");
    proof {
        assert(s@ =~= vault_path@ + "/.nexusmap"@);
    }
    s
}

/// Where the mapping record lives.
pub fn mapping_path(vault_path: &str) -> (r: String)
    ensures
        r@ == vault_path@ + "/.nexusmap"@ + "/sync.json"@,
{
    let mut s = nexusmap_dir(vault_path);
    s.append("/sync.json");
    s
}

/// Where the event log lives.
pub fn events_path(vault_path: &str) -> (r: String)
    ensures
        r@ == vault_path@ + "/.nexusmap"@ + "/events.jsonl"@,
{
    let mut s = nexusmap_dir(vault_path);
    s.append("/events.jsonl");
    s
}

/// The root of the timestamped trash archive.
pub fn trash_dir(vault_path: &str) -> (r: String)
    ensures
        r@ == vault_path@ + "/.nexusmap"@ + "/trash"@,
{
    let mut s = nexusmap_dir(vault_path);
    s.append("/trash");
    s
}

/// Destination of an archived file: `<trash>/<ts>/<rel>`.
pub fn trash_dest_path(vault_path: &str, ts: &str, rel: &str) -> (r: String)
    ensures
        r@ == vault_path@ + "/.nexusmap"@ + "/trash"@ + "/"@ + ts@ + "/"@ + rel@,
{
    let mut s = trash_dir(vault_path);
    s.append("/");
    s.append(ts);
    s.append("/");
    s.append(rel);
    s
}

/// Joins the vault root and a relative path.
pub fn vault_join(vault_path: &str, rel: &str) -> (r: String)
    ensures
        r@ == vault_path@ + "/"@ + rel@,
{
    let mut s = String::new();
    s.append(vault_path);
    s.append("/");
    s.append(rel);
    proof {
        assert(s@ =~= vault_path@ + "/"@ + rel@);
    }
    s
}

/// The relative POSIX path of `p` under `root`, by components: `p` lies
/// under `root` when `root`'s non-empty `/`-separated segments are a prefix
/// of `p`'s and `p` textually starts with `root`; the result is the
/// remaining segments joined with `/` — so it never begins with a
/// separator, and redundant separators in either input do not survive.
pub open spec fn spec_rel(root: Seq<char>, p: Seq<char>) -> Option<Seq<char>> {
    let rs = spec_split(root);
    let ps = spec_split(p);
    if is_prefix(root, p) && rs.len() <= ps.len() && ps.take(rs.len() as int) == rs {
        Some(join_with(ps.skip(rs.len() as int), "/"@))
    } else {
        None
    }
}

/// Computes the relative path of `p` under `root`, if `p` lies in the
/// subtree of `root`.
pub fn to_rel_posix(root: &str, p: &str) -> (r: Option<String>)
    ensures
        match r {
            Some(s) => spec_rel(root@, p@) == Some(s@),
            None => spec_rel(root@, p@) is None,
        },
{
    if !starts_with_str(p, root) {
        return None;
    }
    let rsegs = split_segments(root);
    let psegs = split_segments(p);
    let ghost rv = spec_split(root@);
    let ghost pv = spec_split(p@);
    let nr = rsegs.len();
    let np = psegs.len();
    if nr > np {
        return None;
    }
    let mut i: usize = 0;
    while i < nr
        invariant
            rv == spec_split(root@),
            pv == spec_split(p@),
            rsegs@.map_values(|x: String| x@) =~= rv,
            psegs@.map_values(|x: String| x@) =~= pv,
            nr == rsegs@.len(),
            np == psegs@.len(),
            nr <= np,
            i <= nr,
            forall|j: int| 0 <= j < i ==> pv[j] == rv[j],
        decreases nr - i,
    {
        let a: &String = &rsegs[i];
        let b: &String = &psegs[i];
        proof {
            assert(rv[i as int] == rsegs@[i as int]@);
            assert(pv[i as int] == psegs@[i as int]@);
        }
        if !str_eq(a.as_str(), b.as_str()) {
            proof {
                if pv.take(nr as int) == rv {
                    assert(pv.take(nr as int)[i as int] == rv[i as int]);
                }
            }
            return None;
        }
        i += 1;
    }
    proof {
        assert(pv.take(nr as int) =~= rv);
    }
    let mut tail: Vec<String> = Vec::new();
    let mut k: usize = nr;
    while k < np
        invariant
            pv == spec_split(p@),
            psegs@.map_values(|x: String| x@) =~= pv,
            np == psegs@.len(),
            nr <= k <= np,
            tail@.map_values(|x: String| x@) =~= pv.subrange(nr as int, k as int),
        decreases np - k,
    {
        let e: &String = &psegs[k];
        let ghost tb = tail@.map_values(|x: String| x@);
        proof {
            assert(pv[k as int] == psegs@[k as int]@);
        }
        tail.push(e.clone());
        proof {
            assert(tail@.map_values(|x: String| x@) =~= tb.push(pv[k as int]));
            assert(tb.push(pv[k as int]) =~= pv.subrange(nr as int, k + 1));
        }
        k += 1;
    }
    proof {
        assert(pv.subrange(nr as int, np as int) =~= pv.skip(nr as int));
    }
    Some(crate::strutil::join_parts(&tail, "/"))
}

/// Safe to resolve inside the vault: not absolute and without any `..`
/// component.
pub open spec fn spec_is_safe_relative(p: Seq<char>) -> bool {
    (p.len() > 0 ==> p[0] != '/') && (forall|i: int|
        0 <= i < spec_split(p).len() ==> spec_split(p)[i] != ".."@)
}

/// The containment check for vault write operations: rejects absolute paths
/// and any path with a parent-directory component.
pub fn is_safe_relative(p: &str) -> (r: bool)
    ensures
        r == spec_is_safe_relative(p@),
{
    if p.unicode_len() > 0 && p.get_char(0) == '/' {
        return false;
    }
    let segs = split_segments(p);
    let n = segs.len();
    let ghost sp = spec_split(p@);
    let mut i: usize = 0;
    while i < n
        invariant
            n == segs@.len(),
            sp == spec_split(p@),
            segs@.map_values(|x: String| x@) =~= sp,
            i <= n,
            forall|j: int| 0 <= j < i ==> sp[j] != ".."@,
        decreases n - i,
    {
        let seg: &String = &segs[i];
        proof {
            assert(sp[i as int] == segs@[i as int]@);
        }
        if str_eq(seg.as_str(), "..") {
            proof {
                assert(spec_split(p@)[i as int] == ".."@);
            }
            return false;
        }
        i += 1;
    }
    true
}

/// Whether some `/`-separated component of `p` equals `name`.
pub open spec fn spec_has_component(p: Seq<char>, name: Seq<char>) -> bool {
    exists|i: int| 0 <= i < spec_split(p).len() && spec_split(p)[i] == name
}

pub fn has_component(p: &str, name: &str) -> (r: bool)
    ensures
        r == spec_has_component(p@, name@),
{
    let segs = split_segments(p);
    let n = segs.len();
    let ghost sp = spec_split(p@);
    let mut i: usize = 0;
    while i < n
        invariant
            n == segs@.len(),
            sp == spec_split(p@),
            segs@.map_values(|x: String| x@) =~= sp,
            i <= n,
            forall|j: int| 0 <= j < i ==> sp[j] != name@,
        decreases n - i,
    {
        let seg: &String = &segs[i];
        proof {
            assert(sp[i as int] == segs@[i as int]@);
        }
        if str_eq(seg.as_str(), name) {
            proof {
                assert(spec_split(p@)[i as int] == name@);
            }
            return true;
        }
        i += 1;
    }
    false
}

/// Relative paths that are reserved for pulled content and never pushed.
pub open spec fn spec_is_reserved_rel(rel: Seq<char>) -> bool {
    rel == "resources"@ || is_prefix("resources/"@, rel) || rel == "rag"@ || is_prefix(
        "rag/"@,
        rel,
    )
}

pub fn is_reserved_rel(rel: &str) -> (r: bool)
    ensures
        r == spec_is_reserved_rel(rel@),
{
    if str_eq(rel, "resources") {
        return true;
    }
    if starts_with_str(rel, "resources/") {
        return true;
    }
    if str_eq(rel, "rag") {
        return true;
    }
    starts_with_str(rel, "rag/")
}

/// The push engine's admission rule: a path takes part in a push only when
/// it lies inside the vault, has no `.nexusmap` component, and its relative
/// path is not reserved.
pub open spec fn spec_push_gate(vault_path: Seq<char>, abs_path: Seq<char>) -> Option<Seq<char>> {
    if spec_has_component(abs_path, ".nexusmap"@) {
        None
    } else {
        match spec_rel(vault_path, abs_path) {
            None => None,
            Some(rel) => if spec_is_reserved_rel(rel) {
                None
            } else {
                Some(rel)
            },
        }
    }
}

/// Decides whether a filesystem event path is pushed at all, and under which
/// relative path. `None` means the event is ignored: nothing is looked up or
/// sent for it.
pub fn push_gate(vault_path: &str, abs_path: &str) -> (r: Option<String>)
    ensures
        match r {
            Some(s) => spec_push_gate(vault_path@, abs_path@) == Some(s@),
            None => spec_push_gate(vault_path@, abs_path@) is None,
        },
{
    if has_component(abs_path, ".nexusmap") {
        return None;
    }
    match to_rel_posix(vault_path, abs_path) {
        None => None,
        Some(rel) => {
            if is_reserved_rel(rel.as_str()) {
                None
            } else {
                Some(rel)
            }
        },
    }
}

/// The file-name part: everything after the last `/`.
pub open spec fn spec_file_name(rel: Seq<char>) -> Seq<char> {
    let li = last_index_of(rel, '/');
    if li < 0 {
        rel
    } else {
        rel.skip(li + 1)
    }
}

/// The directory part: everything before the last `/`, empty when there is
/// no separator.
pub open spec fn spec_parent_rel(rel: Seq<char>) -> Seq<char> {
    let li = last_index_of(rel, '/');
    if li < 0 {
        Seq::empty()
    } else {
        rel.take(li)
    }
}

/// The extension as `Path::extension` sees it: the part after the last `.`
/// of the file name, absent when there is no `.` or when the name starts
/// with its only `.`.
pub open spec fn spec_extension(rel: Seq<char>) -> Option<Seq<char>> {
    let name = spec_file_name(rel);
    let d = last_index_of(name, '.');
    if d <= 0 {
        None
    } else {
        Some(name.skip(d + 1))
    }
}

/// The stem: the file name without its extension.
pub open spec fn spec_file_stem(rel: Seq<char>) -> Seq<char> {
    let name = spec_file_name(rel);
    let d = last_index_of(name, '.');
    if d <= 0 {
        name
    } else {
        name.take(d)
    }
}

/// Index of the last occurrence of `c` in `s`, if any.
fn rfind_char(s: &str, c: char) -> (r: Option<usize>)
    ensures
        match r {
            Some(i) => last_index_of(s@, c) == i as int,
            None => last_index_of(s@, c) < 0,
        },
{
    let n = s.unicode_len();
    let mut j = n;
    proof {
        assert(s@.take(n as int) =~= s@);
    }
    while j > 0
        invariant
            n == s@.len(),
            j <= n,
            last_index_of(s@, c) == last_index_of(s@.take(j as int), c),
        decreases j,
    {
        let ch = s.get_char(j - 1);
        proof {
            assert(s@.take(j as int).last() == s@[j - 1]);
            assert(s@.take(j as int).drop_last() =~= s@.take(j - 1));
        }
        if ch == c {
            return Some(j - 1);
        }
        j -= 1;
    }
    proof {
        assert(s@.take(0) =~= Seq::<char>::empty());
    }
    None
}

/// The file-name part of a relative path.
pub fn file_name_of(rel: &str) -> (r: String)
    ensures
        r@ == spec_file_name(rel@),
{
    let n = rel.unicode_len();
    proof {
        crate::strutil::lemma_last_index_of_range(rel@, '/');
    }
    match rfind_char(rel, '/') {
        Some(i) => {
            let part = rel.substring_char(i + 1, n);
            proof {
                assert(part@ =~= rel@.skip(last_index_of(rel@, '/') + 1));
            }
            part.to_owned()
        },
        None => rel.to_owned(),
    }
}

/// The directory part of a relative path.
pub fn parent_rel_of(rel: &str) -> (r: String)
    ensures
        r@ == spec_parent_rel(rel@),
{
    proof {
        crate::strutil::lemma_last_index_of_range(rel@, '/');
    }
    match rfind_char(rel, '/') {
        Some(i) => {
            let part = rel.substring_char(0, i);
            proof {
                assert(part@ =~= rel@.take(last_index_of(rel@, '/')));
            }
            part.to_owned()
        },
        None => {
            let e = String::new();
            proof {
                assert(e@ =~= Seq::<char>::empty());
            }
            e
        },
    }
}

/// Whether the path names a markdown document.
pub fn has_md_extension(rel: &str) -> (r: bool)
    ensures
        r == (spec_extension(rel@) == Some("md"@)),
{
    let name = file_name_of(rel);
    let n = name.as_str().unicode_len();
    proof {
        crate::strutil::lemma_last_index_of_range(name@, '.');
    }
    match rfind_char(name.as_str(), '.') {
        Some(d) => {
            if d == 0 {
                proof {
                    assert(spec_extension(rel@) is None);
                }
                false
            } else {
                let ext = name.as_str().substring_char(d + 1, n);
                proof {
                    assert(ext@ =~= spec_file_name(rel@).skip(
                        last_index_of(spec_file_name(rel@), '.') + 1,
                    ));
                }
                str_eq(ext, "md")
            }
        },
        None => false,
    }
}

/// The sibling name a conflicting remote version is written to:
/// `<stem> (conflict from NexusMap <ts>).<ext>`, in the same directory.
pub open spec fn spec_conflict_rel(rel: Seq<char>, ts: Seq<char>) -> Seq<char> {
    let stem = if spec_file_name(rel).len() == 0 {
        "conflict"@
    } else {
        spec_file_stem(rel)
    };
    let ext = match spec_extension(rel) {
        Some(e) => e,
        None => "md"@,
    };
    let name = stem + " (conflict from NexusMap "@ + ts + ")."@ + ext;
    let dir = spec_parent_rel(rel);
    if dir.len() == 0 {
        name
    } else {
        dir + "/"@ + name
    }
}

/// Builds the conflict sibling path for `rel` at timestamp `ts`.
pub fn conflict_rel_path(rel: &str, ts: &str) -> (r: String)
    ensures
        r@ == spec_conflict_rel(rel@, ts@),
{
    let name = file_name_of(rel);
    let nn = name.as_str().unicode_len();
    proof {
        crate::strutil::lemma_last_index_of_range(name@, '.');
    }
    let mut out = String::new();
    let dir = parent_rel_of(rel);
    if dir.as_str().unicode_len() > 0 {
        out.append(dir.as_str());
        out.append("/");
    }
    if nn == 0 {
        out.append("conflict");
    } else {
        match rfind_char(name.as_str(), '.') {
            Some(d) if d > 0 => {
                let stem = name.as_str().substring_char(0, d);
                proof {
                    assert(stem@ =~= spec_file_stem(rel@));
                }
                out.append(stem);
            },
            _ => {
                out.append(name.as_str());
            },
        }
    }
    out.append(" (conflict from NexusMap ");
    out.append(ts);
    out.append(").");
    match rfind_char(name.as_str(), '.') {
        Some(d) if d > 0 => {
            let ext = name.as_str().substring_char(d + 1, nn);
            proof {
                assert(ext@ =~= spec_file_name(rel@).skip(
                    last_index_of(spec_file_name(rel@), '.') + 1,
                ));
            }
            out.append(ext);
        },
        _ => {
            out.append("md");
        },
    }
    proof {
        assert(out@ =~= spec_conflict_rel(rel@, ts@));
    }
    out
}

} // verus!
