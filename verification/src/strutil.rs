//! Verified string utilities: equality, prefix tests, lexicographic order,
//! substring search, segment splitting and joining, and decimal rendering.
//! All contracts are stated over `Seq<char>` views.
use vstd::prelude::*;
use vstd::string::*;

verus! {

/// Character-wise string equality.
pub fn str_eq(a: &str, b: &str) -> (r: bool)
    ensures
        r == (a@ == b@),
{
    let n = a.unicode_len();
    if n != b.unicode_len() {
        return false;
    }
    let mut i: usize = 0;
    while i < n
        invariant
            n == a@.len(),
            n == b@.len(),
            i <= n,
            forall|j: int| 0 <= j < i ==> a@[j] == b@[j],
        decreases n - i,
    {
        if a.get_char(i) != b.get_char(i) {
            return false;
        }
        i += 1;
    }
    proof {
        assert(a@ =~= b@);
    }
    true
}

/// Whether `p` is a prefix of `s`.
pub open spec fn is_prefix(p: Seq<char>, s: Seq<char>) -> bool {
    p.len() <= s.len() && forall|i: int| 0 <= i < p.len() ==> p[i] == s[i]
}

pub fn starts_with_str(s: &str, p: &str) -> (r: bool)
    ensures
        r == is_prefix(p@, s@),
{
    let np = p.unicode_len();
    if np > s.unicode_len() {
        return false;
    }
    let mut i: usize = 0;
    while i < np
        invariant
            np == p@.len(),
            np <= s@.len(),
            i <= np,
            forall|j: int| 0 <= j < i ==> p@[j] == s@[j],
        decreases np - i,
    {
        if s.get_char(i) != p.get_char(i) {
            return false;
        }
        i += 1;
    }
    true
}

/// Strict lexicographic order on character sequences, by code point.
pub open spec fn lex_lt(a: Seq<char>, b: Seq<char>) -> bool
    decreases a.len(),
{
    if b.len() == 0 {
        false
    } else if a.len() == 0 {
        true
    } else if a[0] != b[0] {
        (a[0] as u32) < (b[0] as u32)
    } else {
        lex_lt(a.skip(1), b.skip(1))
    }
}

proof fn lemma_lex_lt_step(a: Seq<char>, b: Seq<char>, i: int)
    requires
        0 <= i,
        i < a.len(),
        i < b.len(),
        a[i] == b[i],
    ensures
        lex_lt(a.skip(i), b.skip(i)) == lex_lt(a.skip(i + 1), b.skip(i + 1)),
{
    assert(a.skip(i).skip(1) =~= a.skip(i + 1));
    assert(b.skip(i).skip(1) =~= b.skip(i + 1));
    assert(a.skip(i)[0] == a[i]);
    assert(b.skip(i)[0] == b[i]);
}

/// Decides `a@ < b@` in the lexicographic order on code points.
pub fn str_lt(a: &str, b: &str) -> (r: bool)
    ensures
        r == lex_lt(a@, b@),
{
    let na = a.unicode_len();
    let nb = b.unicode_len();
    let mut i: usize = 0;
    proof {
        assert(a@.skip(0) =~= a@);
        assert(b@.skip(0) =~= b@);
    }
    loop
        invariant
            na == a@.len(),
            nb == b@.len(),
            i <= na,
            i <= nb,
            lex_lt(a@, b@) == lex_lt(a@.skip(i as int), b@.skip(i as int)),
        decreases na - i,
    {
        if i >= nb {
            // b is exhausted: a is not less.
            return false;
        }
        if i >= na {
            // a is a strict prefix of b.
            return true;
        }
        let ca = a.get_char(i);
        let cb = b.get_char(i);
        if ca != cb {
            proof {
                assert(a@.skip(i as int)[0] == a@[i as int]);
                assert(b@.skip(i as int)[0] == b@[i as int]);
            }
            return (ca as u32) < (cb as u32);
        }
        proof {
            lemma_lex_lt_step(a@, b@, i as int);
        }
        i += 1;
    }
}

/// Whether `pat` occurs in `s` at position `i`.
pub open spec fn occurs_at(s: Seq<char>, pat: Seq<char>, i: int) -> bool {
    0 <= i && i + pat.len() <= s.len() && s.subrange(i, i + pat.len()) =~= pat
}

fn match_at(s: &str, pat: &str, i: usize) -> (r: bool)
    requires
        i + pat@.len() <= s@.len(),
        s@.len() <= usize::MAX,
    ensures
        r == occurs_at(s@, pat@, i as int),
{
    let np = pat.unicode_len();
    let mut j: usize = 0;
    while j < np
        invariant
            np == pat@.len(),
            i + np <= s@.len(),
            s@.len() <= usize::MAX,
            j <= np,
            forall|k: int| 0 <= k < j ==> s@[i + k] == pat@[k],
        decreases np - j,
    {
        if s.get_char(i + j) != pat.get_char(j) {
            proof {
                if s@.subrange(i as int, i + np) =~= pat@ {
                    assert(s@.subrange(i as int, i + np)[j as int] == pat@[j as int]);
                }
            }
            return false;
        }
        j += 1;
    }
    proof {
        assert(s@.subrange(i as int, i + np) =~= pat@);
    }
    true
}

/// Position of the first occurrence of `pat` in `s`, if any.
pub open spec fn spec_find(s: Seq<char>, pat: Seq<char>) -> Option<int> {
    if exists|i: int| occurs_at(s, pat, i) && (forall|j: int| 0 <= j < i ==> !occurs_at(s, pat, j)) {
        Some(
            choose|i: int|
                occurs_at(s, pat, i) && (forall|j: int| 0 <= j < i ==> !occurs_at(s, pat, j)),
        )
    } else {
        None
    }
}

/// A position that matches and has no earlier match is what `spec_find`
/// denotes.
pub proof fn lemma_find_unique(s: Seq<char>, pat: Seq<char>, i: int)
    requires
        occurs_at(s, pat, i),
        forall|j: int| 0 <= j < i ==> !occurs_at(s, pat, j),
    ensures
        spec_find(s, pat) == Some(i),
{
    let k = choose|k: int|
        occurs_at(s, pat, k) && (forall|j: int| 0 <= j < k ==> !occurs_at(s, pat, j));
    if k < i {
        assert(!occurs_at(s, pat, k));
    }
    if i < k {
        assert(!occurs_at(s, pat, i));
    }
}

/// When no position matches, `spec_find` denotes nothing.
pub proof fn lemma_find_none(s: Seq<char>, pat: Seq<char>)
    requires
        forall|j: int| !occurs_at(s, pat, j),
    ensures
        spec_find(s, pat) is None,
{
}

/// First occurrence of `pat` in `s`, if any.
pub fn find_sub(s: &str, pat: &str) -> (r: Option<usize>)
    ensures
        match r {
            Some(i) => occurs_at(s@, pat@, i as int) && forall|j: int|
                0 <= j < i ==> !occurs_at(s@, pat@, j),
            None => forall|j: int| !occurs_at(s@, pat@, j),
        },
{
    let n = s.unicode_len();
    let np = pat.unicode_len();
    if np > n {
        return None;
    }
    let mut i: usize = 0;
    while i <= n - np
        invariant
            n == s@.len(),
            np == pat@.len(),
            np <= n,
            i <= n - np + 1,
            forall|j: int| 0 <= j < i ==> !occurs_at(s@, pat@, j),
        decreases n - np + 1 - i,
    {
        if match_at(s, pat, i) {
            return Some(i);
        }
        i += 1;
    }
    proof {
        assert(forall|j: int| j > n - np ==> !occurs_at(s@, pat@, j));
    }
    None
}

/// Splitting on `/`, dropping empty segments, written as a left fold:
/// `cur` is the segment being accumulated, `acc` the finished segments.
pub open spec fn split_loop(s: Seq<char>, cur: Seq<char>, acc: Seq<Seq<char>>) -> Seq<Seq<char>>
    decreases s.len(),
{
    if s.len() == 0 {
        if cur.len() == 0 {
            acc
        } else {
            acc.push(cur)
        }
    } else if s[0] == '/' {
        if cur.len() == 0 {
            split_loop(s.skip(1), Seq::empty(), acc)
        } else {
            split_loop(s.skip(1), Seq::empty(), acc.push(cur))
        }
    } else {
        split_loop(s.skip(1), cur.push(s[0]), acc)
    }
}

/// The non-empty `/`-separated segments of `s`, in order.
pub open spec fn spec_split(s: Seq<char>) -> Seq<Seq<char>> {
    split_loop(s, Seq::empty(), Seq::empty())
}

/// Every segment produced by the split is non-empty.
pub proof fn lemma_split_segments_nonempty(s: Seq<char>)
    ensures
        forall|i: int| 0 <= i < spec_split(s).len() ==> #[trigger] spec_split(s)[i].len() > 0,
{
    lemma_split_loop_all_nonempty(s, Seq::empty(), Seq::empty());
}

proof fn lemma_push_all_nonempty(acc: Seq<Seq<char>>, cur: Seq<char>)
    requires
        forall|i: int| 0 <= i < acc.len() ==> #[trigger] acc[i].len() > 0,
        cur.len() > 0,
    ensures
        forall|i: int| 0 <= i < acc.push(cur).len() ==> #[trigger] acc.push(cur)[i].len() > 0,
{
    assert forall|i: int| 0 <= i < acc.push(cur).len() implies #[trigger] acc.push(cur)[i].len()
        > 0 by {
        if i < acc.len() {
            assert(acc.push(cur)[i] == acc[i]);
        } else {
            assert(acc.push(cur)[i] == cur);
        }
    }
}

proof fn lemma_split_loop_all_nonempty(s: Seq<char>, cur: Seq<char>, acc: Seq<Seq<char>>)
    requires
        forall|i: int| 0 <= i < acc.len() ==> #[trigger] acc[i].len() > 0,
    ensures
        forall|i: int|
            0 <= i < split_loop(s, cur, acc).len() ==> #[trigger] split_loop(s, cur, acc)[i].len()
                > 0,
    decreases s.len(),
{
    let r = split_loop(s, cur, acc);
    if s.len() == 0 {
        if cur.len() > 0 {
            lemma_push_all_nonempty(acc, cur);
        }
    } else if s[0] == '/' {
        if cur.len() == 0 {
            lemma_split_loop_all_nonempty(s.skip(1), Seq::empty(), acc);
            assert(r == split_loop(s.skip(1), Seq::<char>::empty(), acc));
        } else {
            lemma_push_all_nonempty(acc, cur);
            lemma_split_loop_all_nonempty(s.skip(1), Seq::empty(), acc.push(cur));
            assert(r == split_loop(s.skip(1), Seq::<char>::empty(), acc.push(cur)));
        }
    } else {
        lemma_split_loop_all_nonempty(s.skip(1), cur.push(s[0]), acc);
        assert(r == split_loop(s.skip(1), cur.push(s[0]), acc));
    }
}

/// Splits `s` on `/`, dropping empty segments.
pub fn split_segments(s: &str) -> (r: Vec<String>)
    ensures
        r@.map_values(|x: String| x@) =~= spec_split(s@),
{
    let n = s.unicode_len();
    let mut acc: Vec<String> = Vec::new();
    let mut cur = String::new();
    let mut i: usize = 0;
    proof {
        assert(s@.skip(0) =~= s@);
        assert(acc@.map_values(|x: String| x@) =~= Seq::<Seq<char>>::empty());
    }
    while i < n
        invariant
            n == s@.len(),
            i <= n,
            spec_split(s@) == split_loop(
                s@.skip(i as int),
                cur@,
                acc@.map_values(|x: String| x@),
            ),
        decreases n - i,
    {
        let ghost pre = s@.skip(i as int);
        let ghost cur0 = cur@;
        let ghost acc0 = acc@.map_values(|x: String| x@);
        let c = s.get_char(i);
        proof {
            assert(pre[0] == s@[i as int]);
            assert(pre.skip(1) =~= s@.skip(i + 1));
        }
        if c == '/' {
            if cur.as_str().unicode_len() > 0 {
                acc.push(cur);
                cur = String::new();
                proof {
                    assert(acc@.map_values(|x: String| x@) =~= acc0.push(cur0));
                    assert(split_loop(pre, cur0, acc0) == split_loop(
                        pre.skip(1),
                        Seq::empty(),
                        acc0.push(cur0),
                    ));
                }
            } else {
                proof {
                    assert(cur0 =~= Seq::<char>::empty());
                    assert(split_loop(pre, cur0, acc0) == split_loop(
                        pre.skip(1),
                        Seq::empty(),
                        acc0,
                    ));
                }
            }
        } else {
            // Append the single character c to cur.
            let piece = s.substring_char(i, i + 1);
            proof {
                assert(piece@ =~= seq![s@[i as int]]);
            }
            cur.append(piece);
            proof {
                assert(cur@ =~= cur0.push(c));
                assert(split_loop(pre, cur0, acc0) == split_loop(pre.skip(1), cur0.push(c), acc0));
            }
        }
        i += 1;
    }
    proof {
        assert(s@.skip(n as int) =~= Seq::<char>::empty());
    }
    let ghost cur0 = cur@;
    let ghost acc0 = acc@.map_values(|x: String| x@);
    if cur.as_str().unicode_len() > 0 {
        acc.push(cur);
        proof {
            assert(acc@.map_values(|x: String| x@) =~= acc0.push(cur0));
        }
    }
    acc
}

/// Joins segments with `/`; the inverse of the split when all segments are
/// non-empty and free of `/`.
pub open spec fn join_segs(parts: Seq<Seq<char>>) -> Seq<char>
    decreases parts.len(),
{
    if parts.len() == 0 {
        Seq::empty()
    } else if parts.len() == 1 {
        parts[0]
    } else {
        join_segs(parts.drop_last()) + seq!['/'] + parts.last()
    }
}

/// A join of non-empty segments is empty exactly when there are no segments.
pub proof fn lemma_join_len(parts: Seq<Seq<char>>)
    requires
        forall|i: int| 0 <= i < parts.len() ==> #[trigger] parts[i].len() > 0,
    ensures
        parts.len() > 0 ==> join_segs(parts).len() > 0,
        parts.len() == 0 ==> join_segs(parts).len() == 0,
    decreases parts.len(),
{
    if parts.len() > 1 {
        lemma_join_len(parts.drop_last());
    }
}

/// Extends a joined path by one more segment: empty prefix yields the
/// segment itself, otherwise `prefix + "/" + segment`.
pub fn extend_rel(prefix: &str, seg: &str) -> (r: String)
    ensures
        prefix@.len() == 0 ==> r@ == seg@,
        prefix@.len() > 0 ==> r@ == prefix@ + seq!['/'] + seg@,
{
    if prefix.unicode_len() == 0 {
        let mut s = String::new();
        s.append(seg);
        proof {
            assert(s@ =~= seg@);
        }
        s
    } else {
        let mut s = String::new();
        s.append(prefix);
        s.append("/");
        s.append(seg);
        proof {
            reveal_strlit("/");
            assert("/"@ =~= seq!['/']);
            assert(s@ =~= prefix@ + seq!['/'] + seg@);
        }
        s
    }
}

/// Extending the join of the first `i` segments by segment `i` yields the
/// join of the first `i + 1` segments.
pub proof fn lemma_join_extend(parts: Seq<Seq<char>>, i: int)
    requires
        0 <= i < parts.len(),
        forall|j: int| 0 <= j < parts.len() ==> #[trigger] parts[j].len() > 0,
    ensures
        i == 0 ==> join_segs(parts.take(i + 1)) == parts[i],
        i > 0 ==> join_segs(parts.take(i + 1)) == join_segs(parts.take(i)) + seq!['/'] + parts[i],
        join_segs(parts.take(i)).len() == 0 <==> i == 0,
{
    let p1 = parts.take(i + 1);
    assert(p1.drop_last() =~= parts.take(i));
    assert(p1.last() == parts[i]);
    if i == 0 {
        assert(p1.len() == 1);
        assert(join_segs(p1) == p1[0]);
    }
    assert(forall|j: int| 0 <= j < parts.take(i).len() ==> #[trigger] parts.take(i)[j].len() > 0);
    lemma_join_len(parts.take(i));
}

/// Index of the last occurrence of `c` in `s`, or -1 when `c` does not
/// occur.
pub open spec fn last_index_of(s: Seq<char>, c: char) -> int
    decreases s.len(),
{
    if s.len() == 0 {
        -1
    } else if s.last() == c {
        s.len() - 1
    } else {
        last_index_of(s.drop_last(), c)
    }
}

/// The last index is in range when the character occurs at all.
pub proof fn lemma_last_index_of_range(s: Seq<char>, c: char)
    ensures
        -1 <= last_index_of(s, c) < s.len(),
        last_index_of(s, c) >= 0 ==> s[last_index_of(s, c)] == c,
    decreases s.len(),
{
    if s.len() > 0 && s.last() != c {
        lemma_last_index_of_range(s.drop_last(), c);
    }
}

/// `s` with every trailing `c` removed.
pub open spec fn trim_trailing(s: Seq<char>, c: char) -> Seq<char>
    decreases s.len(),
{
    if s.len() > 0 && s.last() == c {
        trim_trailing(s.drop_last(), c)
    } else {
        s
    }
}

/// Removes every trailing occurrence of `c`.
pub fn trim_trailing_char(s: &str, c: char) -> (r: String)
    ensures
        r@ == trim_trailing(s@, c),
{
    let n = s.unicode_len();
    let mut j = n;
    proof {
        assert(s@.take(n as int) =~= s@);
    }
    while j > 0
        invariant
            n == s@.len(),
            j <= n,
            trim_trailing(s@, c) == trim_trailing(s@.take(j as int), c),
        decreases j,
    {
        let ch = s.get_char(j - 1);
        proof {
            assert(s@.take(j as int).last() == s@[j - 1]);
            assert(s@.take(j as int).drop_last() =~= s@.take(j - 1));
        }
        if ch != c {
            let part = s.substring_char(0, j);
            proof {
                assert(part@ =~= s@.take(j as int));
            }
            return part.to_owned();
        }
        j -= 1;
    }
    proof {
        assert(s@.take(0) =~= Seq::<char>::empty());
    }
    let e = String::new();
    proof {
        assert(e@ =~= Seq::<char>::empty());
    }
    e
}

/// Joins parts with a separator string.
pub open spec fn join_with(parts: Seq<Seq<char>>, sep: Seq<char>) -> Seq<char>
    decreases parts.len(),
{
    if parts.len() == 0 {
        Seq::empty()
    } else if parts.len() == 1 {
        parts[0]
    } else {
        join_with(parts.drop_last(), sep) + sep + parts.last()
    }
}

/// Joins the parts with the separator, by position.
pub fn join_parts(parts: &Vec<String>, sep: &str) -> (r: String)
    ensures
        r@ == join_with(parts@.map_values(|x: String| x@), sep@),
{
    let ghost pv = parts@.map_values(|x: String| x@);
    let n = parts.len();
    let mut out = String::new();
    let mut i: usize = 0;
    proof {
        assert(pv.take(0) =~= Seq::<Seq<char>>::empty());
        assert(out@ =~= join_with(pv.take(0), sep@));
    }
    while i < n
        invariant
            n == parts@.len(),
            pv == parts@.map_values(|x: String| x@),
            i <= n,
            out@ == join_with(pv.take(i as int), sep@),
        decreases n - i,
    {
        let p: &String = &parts[i];
        proof {
            assert(pv[i as int] == parts@[i as int]@);
            assert(pv.take(i + 1).drop_last() =~= pv.take(i as int));
            assert(pv.take(i + 1).last() == pv[i as int]);
        }
        if i == 0 {
            out.append(p.as_str());
            proof {
                assert(pv.take(1).len() == 1);
                assert(out@ =~= join_with(pv.take(1), sep@));
            }
        } else {
            out.append(sep);
            out.append(p.as_str());
            proof {
                assert(out@ =~= join_with(pv.take(i as int), sep@) + sep@ + pv[i as int]);
            }
        }
        i += 1;
    }
    proof {
        assert(pv.take(n as int) =~= pv);
    }
    out
}

/// Concatenation of two strings.
pub fn str_concat(a: &str, b: &str) -> (r: String)
    ensures
        r@ == a@ + b@,
{
    let mut s = String::new();
    s.append(a);
    s.append(b);
    proof {
        assert(s@ =~= a@ + b@);
    }
    s
}

/// Membership of a string among the views of a vector of strings.
pub open spec fn seq_contains_str(xs: Seq<Seq<char>>, x: Seq<char>) -> bool {
    exists|i: int| 0 <= i < xs.len() && xs[i] == x
}

pub fn vec_contains_str(xs: &Vec<String>, x: &str) -> (r: bool)
    ensures
        r == seq_contains_str(xs@.map_values(|s: String| s@), x@),
{
    let ghost xv = xs@.map_values(|s: String| s@);
    let n = xs.len();
    let mut i: usize = 0;
    while i < n
        invariant
            n == xs@.len(),
            xv == xs@.map_values(|s: String| s@),
            i <= n,
            forall|j: int| 0 <= j < i ==> xv[j] != x@,
        decreases n - i,
    {
        let e: &String = &xs[i];
        proof {
            assert(xv[i as int] == xs@[i as int]@);
        }
        if str_eq(e.as_str(), x) {
            return true;
        }
        i += 1;
    }
    false
}

/// Blank: empty, or made of ASCII whitespace only.
pub open spec fn spec_is_blank(s: Seq<char>) -> bool {
    forall|i: int|
        0 <= i < s.len() ==> (s[i] == ' ' || s[i] == '\t' || s[i] == '\n' || s[i] == '\r')
}

pub fn is_blank(s: &str) -> (r: bool)
    ensures
        r == spec_is_blank(s@),
{
    let n = s.unicode_len();
    let mut i: usize = 0;
    while i < n
        invariant
            n == s@.len(),
            i <= n,
            forall|j: int|
                0 <= j < i ==> (s@[j] == ' ' || s@[j] == '\t' || s@[j] == '\n' || s@[j] == '\r'),
        decreases n - i,
    {
        let c = s.get_char(i);
        if !(c == ' ' || c == '\t' || c == '\n' || c == '\r') {
            return false;
        }
        i += 1;
    }
    true
}

pub open spec fn spec_digit_char(d: int) -> char {
    if d == 0 {
        '0'
    } else if d == 1 {
        '1'
    } else if d == 2 {
        '2'
    } else if d == 3 {
        '3'
    } else if d == 4 {
        '4'
    } else if d == 5 {
        '5'
    } else if d == 6 {
        '6'
    } else if d == 7 {
        '7'
    } else if d == 8 {
        '8'
    } else {
        '9'
    }
}

/// The decimal rendering of `n`, most significant digit first.
pub open spec fn spec_decimal(n: int) -> Seq<char>
    decreases n,
{
    if n < 10 {
        seq![spec_digit_char(n)]
    } else {
        spec_decimal(n / 10).push(spec_digit_char(n % 10))
    }
}

fn digit_str(d: u32) -> (r: &'static str)
    requires
        d < 10,
    ensures
        r@ =~= seq![spec_digit_char(d as int)],
{
    proof {
        reveal_strlit("0");
        reveal_strlit("1");
        reveal_strlit("2");
        reveal_strlit("3");
        reveal_strlit("4");
        reveal_strlit("5");
        reveal_strlit("6");
        reveal_strlit("7");
        reveal_strlit("8");
        reveal_strlit("9");
    }
    match d {
        0 => "0",
        1 => "1",
        2 => "2",
        3 => "3",
        4 => "4",
        5 => "5",
        6 => "6",
        7 => "7",
        8 => "8",
        _ => "9",
    }
}

/// Renders `n` in decimal.
pub fn u32_to_string(n: u32) -> (r: String)
    ensures
        r@ == spec_decimal(n as int),
    decreases n,
{
    if n < 10 {
        let mut s = String::new();
        s.append(digit_str(n));
        proof {
            assert(s@ =~= seq![spec_digit_char(n as int)]);
        }
        s
    } else {
        let mut s = u32_to_string(n / 10);
        s.append(digit_str(n % 10));
        proof {
            assert(s@ =~= spec_decimal((n / 10) as int).push(spec_digit_char((n % 10) as int)));
        }
        s
    }
}

} // verus!
