//! Purely syntactic path resolution: a working directory and a raw path
//! string become a normalized absolute segment sequence.
use vstd::prelude::*;

verus! {

/// Fold one raw segment into the accumulated parts: empty and `.` vanish,
/// `..` removes the last part (never ascending past the root), anything else
/// is appended.
pub open spec fn apply_seg(parts: Seq<Seq<char>>, seg: Seq<char>) -> Seq<Seq<char>> {
    if seg.len() == 0 || seg == "."@ {
        parts
    } else if seg == ".."@ {
        if parts.len() > 0 {
            parts.drop_last()
        } else {
            parts
        }
    } else {
        parts.push(seg)
    }
}

/// Resolution state after the first `i` characters: `parts` accumulated so
/// far and `cur` the segment being read; `/` closes a segment.
pub open spec fn resolve_from(s: Seq<char>, i: int, parts: Seq<Seq<char>>, cur: Seq<char>) -> Seq<
    Seq<char>,
>
    decreases s.len() - i,
{
    if i < 0 || i >= s.len() {
        apply_seg(parts, cur)
    } else if s[i] == '/' {
        resolve_from(s, i + 1, apply_seg(parts, cur), Seq::empty())
    } else {
        resolve_from(s, i + 1, parts, cur.push(s[i]))
    }
}

/// Resolve a raw path against a working directory: absolute paths restart
/// from the root, relative ones extend the working directory. Never fails.
pub open spec fn resolve_spec(cwd: Seq<Seq<char>>, input: Seq<char>) -> Seq<Seq<char>> {
    if input.len() > 0 && input[0] == '/' {
        resolve_from(input, 0, Seq::empty(), Seq::empty())
    } else {
        resolve_from(input, 0, cwd, Seq::empty())
    }
}

/// Apply one finished raw segment to the accumulated parts.
fn apply_segment(parts: &mut Vec<String>, cur: String)
    ensures
        final(parts).deep_view() == apply_seg(old(parts).deep_view(), cur@),
{
    if cur.as_str().is_empty() || crate::text::str_eq(cur.as_str(), ".") {
    } else if crate::text::str_eq(cur.as_str(), "..") {
        if parts.len() > 0 {
            let _ = parts.pop();
            proof {
                assert(parts.deep_view() =~= old(parts).deep_view().drop_last());
            }
        }
    } else {
        parts.push(cur);
        proof {
            assert(parts.deep_view() =~= old(parts).deep_view().push(cur@));
        }
    }
}

/// A copy of the working directory segments.
pub fn clone_segs(v: &Vec<String>) -> (r: Vec<String>)
    ensures
        r.deep_view() == v.deep_view(),
{
    let mut r: Vec<String> = Vec::new();
    let mut i: usize = 0;
    while i < v.len()
        invariant
            i <= v@.len(),
            r@.len() == i,
            forall|m: int| 0 <= m < i ==> r@[m]@ == v@[m]@,
        decreases v@.len() - i,
    {
        r.push(v[i].clone());
        i = i + 1;
    }
    proof {
        assert(r.deep_view() =~= v.deep_view());
    }
    r
}

/// Resolve a raw path string against the working directory into a normalized
/// absolute segment sequence.
pub fn resolve_path(cwd: &Vec<String>, input: &str) -> (r: Vec<String>)
    ensures
        r.deep_view() == resolve_spec(cwd.deep_view(), input@),
{
    let n = input.unicode_len();
    let mut parts: Vec<String>;
    if n > 0 && input.get_char(0) == '/' {
        parts = Vec::new();
        proof {
            assert(parts.deep_view() =~= Seq::<Seq<char>>::empty());
        }
    } else {
        parts = clone_segs(cwd);
    }
    let ghost init = parts.deep_view();
    let ghost goal = resolve_spec(cwd.deep_view(), input@);
    let mut cur = String::new();
    let mut i: usize = 0;
    while i < n
        invariant
            i <= n,
            n == input@.len(),
            goal == resolve_from(input@, i as int, parts.deep_view(), cur@),
        decreases n - i,
    {
        let c = input.get_char(i);
        if c == '/' {
            apply_segment(&mut parts, cur);
            cur = String::new();
        } else {
            cur.push(c);
        }
        i = i + 1;
    }
    apply_segment(&mut parts, cur);
    parts
}

} // verus!
