//! Reading the tail of the event log: the log file's text split into lines,
//! and the last `limit` of them in chronological order.
use vstd::prelude::*;
use vstd::string::*;

verus! {

/// Splitting on newlines, keeping empty pieces: `cur` is the line being
/// accumulated, `acc` the finished lines.
pub open spec fn lines_loop(s: Seq<char>, cur: Seq<char>, acc: Seq<Seq<char>>) -> Seq<Seq<char>>
    decreases s.len(),
{
    if s.len() == 0 {
        acc.push(cur)
    } else if s[0] == '\n' {
        lines_loop(s.skip(1), Seq::empty(), acc.push(cur))
    } else {
        lines_loop(s.skip(1), cur.push(s[0]), acc)
    }
}

/// The lines of a text: pieces between newlines, except that an empty text
/// has none and a trailing newline ends the last line instead of opening an
/// empty one.
pub open spec fn spec_lines(s: Seq<char>) -> Seq<Seq<char>> {
    if s.len() == 0 {
        Seq::empty()
    } else if s.last() == '\n' {
        lines_loop(s, Seq::empty(), Seq::empty()).drop_last()
    } else {
        lines_loop(s, Seq::empty(), Seq::empty())
    }
}

fn split_lines(text: &str) -> (r: Vec<String>)
    ensures
        r@.map_values(|x: String| x@) =~= spec_lines(text@),
{
    let n = text.unicode_len();
    if n == 0 {
        let r: Vec<String> = Vec::new();
        proof {
            assert(r@.map_values(|x: String| x@) =~= Seq::<Seq<char>>::empty());
        }
        return r;
    }
    let mut acc: Vec<String> = Vec::new();
    let mut cur = String::new();
    let mut i: usize = 0;
    proof {
        assert(text@.skip(0) =~= text@);
        assert(acc@.map_values(|x: String| x@) =~= Seq::<Seq<char>>::empty());
    }
    while i < n
        invariant
            n == text@.len(),
            i <= n,
            lines_loop(text@, Seq::empty(), Seq::empty()) == lines_loop(
                text@.skip(i as int),
                cur@,
                acc@.map_values(|x: String| x@),
            ),
        decreases n - i,
    {
        let ghost pre = text@.skip(i as int);
        let ghost cur0 = cur@;
        let ghost acc0 = acc@.map_values(|x: String| x@);
        let c = text.get_char(i);
        proof {
            assert(pre[0] == text@[i as int]);
            assert(pre.skip(1) =~= text@.skip(i + 1));
        }
        if c == '\n' {
            acc.push(cur);
            cur = String::new();
            proof {
                assert(acc@.map_values(|x: String| x@) =~= acc0.push(cur0));
                assert(lines_loop(pre, cur0, acc0) == lines_loop(
                    pre.skip(1),
                    Seq::empty(),
                    acc0.push(cur0),
                ));
            }
        } else {
            let piece = text.substring_char(i, i + 1);
            proof {
                assert(piece@ =~= seq![text@[i as int]]);
            }
            cur.append(piece);
            proof {
                assert(cur@ =~= cur0.push(c));
                assert(lines_loop(pre, cur0, acc0) == lines_loop(pre.skip(1), cur0.push(c), acc0));
            }
        }
        i += 1;
    }
    proof {
        assert(text@.skip(n as int) =~= Seq::<char>::empty());
    }
    let last_is_newline = text.get_char(n - 1) == '\n';
    let ghost cur0 = cur@;
    let ghost acc0 = acc@.map_values(|x: String| x@);
    if !last_is_newline {
        acc.push(cur);
        proof {
            assert(acc@.map_values(|x: String| x@) =~= acc0.push(cur0));
        }
    } else {
        proof {
            assert(acc0.push(cur0).drop_last() =~= acc0);
        }
    }
    acc
}

/// The last `limit` lines of the log text, oldest first. Fewer lines than
/// `limit` are all returned; a trailing newline does not open an empty line.
pub fn tail_lines(text: &str, limit: usize) -> (r: Vec<String>)
    ensures
        ({
            let ls = spec_lines(text@);
            let start = if ls.len() > limit {
                ls.len() - limit
            } else {
                0int
            };
            r@.map_values(|x: String| x@) =~= ls.skip(start)
        }),
{
    let lines = split_lines(text);
    let ghost ls = spec_lines(text@);
    let n = lines.len();
    let start: usize = if n > limit {
        n - limit
    } else {
        0
    };
    let mut out: Vec<String> = Vec::new();
    let mut i: usize = start;
    while i < n
        invariant
            n == lines@.len(),
            lines@.map_values(|x: String| x@) =~= ls,
            start <= i <= n,
            out@.len() == i - start,
            ({
                let ov = out@.map_values(|x: String| x@);
                let lv = lines@.map_values(|x: String| x@);
                forall|k: int| 0 <= k < ov.len() ==> #[trigger] ov[k] == lv[start + k]
            }),
        decreases n - i,
    {
        let e: &String = &lines[i];
        let ghost ob = out@.map_values(|x: String| x@);
        out.push(e.clone());
        proof {
            let oa = out@.map_values(|x: String| x@);
            assert(oa =~= ob.push(e@));
            assert(forall|k: int| 0 <= k < ob.len() ==> oa[k] == ob[k]);
            assert(lines@.map_values(|x: String| x@)[i as int] == lines@[i as int]@);
        }
        i += 1;
    }
    proof {
        let start_spec = if ls.len() > limit {
            ls.len() - limit
        } else {
            0int
        };
        assert(out@.map_values(|x: String| x@) =~= ls.skip(start_spec));
    }
    out
}

} // verus!
