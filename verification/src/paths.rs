//! Path conventions shared by the archive writer and the restorer.
//!
//! A path or stored entry name is modeled as its sequence of characters.
//! The separator is always `'/'`, on every platform: entry names are stored
//! with forward slashes, and roots are expected without a trailing slash.
use vstd::prelude::*;

verus! {

use vstd::string::StringSliceAdditionalSpecFns;

// ---------------------------------------------------------------------------
// Splitting a name into '/'-separated segments.
// ---------------------------------------------------------------------------
/// Splits `s` on `'/'`, with `cur` the segment accumulated so far.
pub open spec fn split_from(s: Seq<char>, cur: Seq<char>) -> Seq<Seq<char>>
    decreases s.len(),
{
    if s.len() == 0 {
        seq![cur]
    } else if s[0] == '/' {
        seq![cur] + split_from(s.skip(1), Seq::empty())
    } else {
        split_from(s.skip(1), cur.push(s[0]))
    }
}

/// The '/'-separated segments of a name; `segments("a/b")` is `["a", "b"]`,
/// and empty segments (from doubled or trailing slashes) are kept.
pub open spec fn segments(s: Seq<char>) -> Seq<Seq<char>> {
    split_from(s, Seq::empty())
}

/// A segment that names the directory itself: empty (doubled or trailing
/// slash) or a single dot.
pub open spec fn seg_is_here(seg: Seq<char>) -> bool {
    seg.len() == 0 || seg =~= seq!['.']
}

/// A segment that names the parent directory.
pub open spec fn seg_is_parent(seg: Seq<char>) -> bool {
    seg =~= seq!['.', '.']
}

/// How many directory levels below its starting point a walk of `segs`
/// ends, or `None` if some prefix of the walk climbs above the start.
pub open spec fn walk_depth(segs: Seq<Seq<char>>) -> Option<int>
    decreases segs.len(),
{
    if segs.len() == 0 {
        Some(0)
    } else {
        match walk_depth(segs.drop_last()) {
            Option::None => Option::None,
            Option::Some(d) => {
                if seg_is_here(segs.last()) {
                    Some(d)
                } else if seg_is_parent(segs.last()) {
                    if d > 0 {
                        Some(d - 1)
                    } else {
                        Option::None
                    }
                } else {
                    Some(d + 1)
                }
            },
        }
    }
}

/// A stored entry name is safe to materialize under a destination root:
/// it is nonempty, holds no NUL character, is not absolute, and no prefix
/// of its segments walks above the root via `..`.
pub open spec fn safe_name(s: Seq<char>) -> bool {
    &&& s.len() > 0
    &&& !s.contains('\0')
    &&& s[0] != '/'
    &&& walk_depth(segments(s)) is Some
}

/// No prefix of the walk of `segs` climbs above its starting directory.
pub open spec fn never_escapes(segs: Seq<Seq<char>>) -> bool {
    forall|k: int| 0 <= k <= segs.len() ==> walk_depth(#[trigger] segs.take(k)) is Some
}

/// A safe name's walk stays below its starting directory at every step.
pub proof fn lemma_safe_never_escapes(n: Seq<char>)
    requires
        safe_name(n),
    ensures
        never_escapes(segments(n)),
{
    assert forall|k: int|
        0 <= k <= segments(n).len() implies walk_depth(#[trigger] segments(n).take(k)) is Some by {
        if walk_depth(segments(n).take(k)) is None {
            lemma_walk_depth_none_extends(segments(n), k);
        }
    }
}

/// A name with a trailing separator declares a directory, not a file.
pub open spec fn is_dir_name(s: Seq<char>) -> bool {
    s.len() > 0 && s.last() == '/'
}

// ---------------------------------------------------------------------------
// Relating a path to a root.
// ---------------------------------------------------------------------------
/// `p` lies strictly under `root`: it is `root`, then `'/'`, then a
/// nonempty remainder.
pub open spec fn is_under(root: Seq<char>, p: Seq<char>) -> bool {
    &&& p.len() > root.len() + 1
    &&& p.take(root.len() as int) =~= root
    &&& p[root.len() as int] == '/'
}

/// The part of `p` after `root` and the separator.
pub open spec fn rel_of(root: Seq<char>, p: Seq<char>) -> Seq<char> {
    p.skip(root.len() as int + 1)
}

/// The destination of entry `name` under `root`.
pub open spec fn joined(root: Seq<char>, name: Seq<char>) -> Seq<char> {
    root + seq!['/'] + name
}

/// What a joined destination looks like relative to its root.
pub proof fn lemma_joined_parts(root: Seq<char>, name: Seq<char>)
    ensures
        is_under(root, joined(root, name)) <==> name.len() > 0,
        rel_of(root, joined(root, name)) =~= name,
{
}

/// Joining under a root is injective in the name.
pub proof fn lemma_joined_injective(root: Seq<char>, a: Seq<char>, b: Seq<char>)
    requires
        joined(root, a) =~= joined(root, b),
    ensures
        a =~= b,
{
    let ja = joined(root, a);
    let jb = joined(root, b);
    assert(ja.len() == root.len() + 1 + a.len());
    assert(jb.len() == root.len() + 1 + b.len());
    assert forall|i: int| 0 <= i < a.len() implies a[i] == b[i] by {
        let k: int = root.len() + 1 + i;
        assert(ja[k] == a[i]);
        assert(jb[k] == b[i]);
    }
}

// ---------------------------------------------------------------------------
// Executable counterparts.
// ---------------------------------------------------------------------------
/// Splits a name into its '/'-separated segments.
pub fn split_segments(s: &str) -> (r: Vec<String>)
    ensures
        r.deep_view() =~= segments(s@),
{
    let n = s.unicode_len();
    let mut r: Vec<String> = Vec::new();
    let mut start: usize = 0;
    let mut i: usize = 0;
    proof {
        assert(s@.skip(0) =~= s@);
        assert(s@.subrange(0, 0) =~= Seq::<char>::empty());
        assert(r.deep_view() =~= Seq::<Seq<char>>::empty());
        assert(Seq::<Seq<char>>::empty() + split_from(s@, Seq::empty()) =~= split_from(
            s@,
            Seq::empty(),
        ));
    }
    while i < n
        invariant
            n == s@.len(),
            start <= i <= n,
            segments(s@) =~= r.deep_view() + split_from(
                s@.skip(i as int),
                s@.subrange(start as int, i as int),
            ),
        decreases n - i,
    {
        let c = s.get_char(i);
        proof {
            assert(s@.skip(i as int)[0] == s@[i as int]);
            assert(s@.skip(i as int).skip(1) =~= s@.skip(i as int + 1));
        }
        if c == '/' {
            let ghost old_r = r.deep_view();
            let seg = String::from_str(s.substring_char(start, i));
            r.push(seg);
            proof {
                assert(r.deep_view() =~= old_r.push(s@.subrange(start as int, i as int)));
                assert(old_r + (seq![s@.subrange(start as int, i as int)] + split_from(
                    s@.skip(i as int + 1),
                    Seq::empty(),
                )) =~= r.deep_view() + split_from(s@.skip(i as int + 1), Seq::empty()));
                assert(s@.subrange(i as int + 1, i as int + 1) =~= Seq::<char>::empty());
            }
            start = i + 1;
        } else {
            proof {
                assert(s@.subrange(start as int, i as int).push(s@[i as int]) =~= s@.subrange(
                    start as int,
                    i as int + 1,
                ));
            }
        }
        i = i + 1;
    }
    proof {
        assert(s@.skip(n as int) =~= Seq::<char>::empty());
    }
    let last = String::from_str(s.substring_char(start, n));
    let ghost old_r = r.deep_view();
    r.push(last);
    proof {
        assert(r.deep_view() =~= old_r.push(s@.subrange(start as int, n as int)));
    }
    r
}

fn seg_here(seg: &String) -> (r: bool)
    ensures
        r == seg_is_here(seg@),
{
    let n = seg.as_str().unicode_len();
    if n == 0 {
        true
    } else if n == 1 {
        let c = seg.as_str().get_char(0);
        proof {
            if c == '.' {
                assert(seg@ =~= seq!['.']);
            } else {
                assert(seg@[0] != '.');
            }
        }
        c == '.'
    } else {
        false
    }
}

fn seg_parent(seg: &String) -> (r: bool)
    ensures
        r == seg_is_parent(seg@),
{
    let n = seg.as_str().unicode_len();
    if n == 2 {
        let a = seg.as_str().get_char(0);
        let b = seg.as_str().get_char(1);
        proof {
            if a == '.' && b == '.' {
                assert(seg@ =~= seq!['.', '.']);
            }
        }
        a == '.' && b == '.'
    } else {
        false
    }
}

/// A walk whose prefix already escaped stays escaped.
pub proof fn lemma_walk_depth_none_extends(segs: Seq<Seq<char>>, k: int)
    requires
        0 <= k <= segs.len(),
        walk_depth(segs.take(k)) is None,
    ensures
        walk_depth(segs) is None,
    decreases segs.len() - k,
{
    if k == segs.len() {
        assert(segs.take(k) =~= segs);
    } else {
        assert(segs.take(k + 1).drop_last() =~= segs.take(k));
        lemma_walk_depth_none_extends(segs, k + 1);
    }
}

/// Decides [`safe_name`] for a stored entry name.
pub fn is_safe_name(s: &str) -> (r: bool)
    ensures
        r == safe_name(s@),
{
    let n = s.unicode_len();
    if n == 0 {
        return false;
    }
    if s.get_char(0) == '/' {
        return false;
    }
    let mut i: usize = 0;
    while i < n
        invariant
            n == s@.len(),
            i <= n,
            forall|j: int| 0 <= j < i ==> s@[j] != '\0',
        decreases n - i,
    {
        if s.get_char(i) == '\0' {
            proof {
                assert(s@.contains('\0')) by {
                    assert(s@[i as int] == '\0');
                }
            }
            return false;
        }
        i = i + 1;
    }
    assert(!s@.contains('\0'));
    let segs = split_segments(s);
    let m = segs.len();
    let mut d: usize = 0;
    let mut k: usize = 0;
    proof {
        assert(segs.deep_view().take(0) =~= Seq::<Seq<char>>::empty());
    }
    while k < m
        invariant
            m == segs.len(),
            segs.deep_view() =~= segments(s@),
            k <= m,
            d <= k,
            walk_depth(segs.deep_view().take(k as int)) == Some(d as int),
        decreases m - k,
    {
        let seg = &segs[k];
        proof {
            assert(segs.deep_view().take(k as int + 1).drop_last() =~= segs.deep_view().take(
                k as int,
            ));
            assert(segs.deep_view().take(k as int + 1).last() == seg@);
        }
        if seg_here(seg) {
        } else if seg_parent(seg) {
            if d == 0 {
                proof {
                    lemma_walk_depth_none_extends(segs.deep_view(), k as int + 1);
                }
                return false;
            }
            d = d - 1;
        } else {
            d = d + 1;
        }
        k = k + 1;
    }
    proof {
        assert(segs.deep_view().take(m as int) =~= segs.deep_view());
    }
    true
}

/// Decides whether a stored name declares a directory.
pub fn ends_with_sep(s: &str) -> (r: bool)
    ensures
        r == is_dir_name(s@),
{
    let n = s.unicode_len();
    if n == 0 {
        false
    } else {
        s.get_char(n - 1) == '/'
    }
}

/// Joins a stored entry name under a destination root.
pub fn join_under(root: &str, name: &str) -> (r: String)
    ensures
        r@ == joined(root@, name@),
{
    proof {
        reveal_strlit("/");
        assert("/"@ =~= seq!['/']);
    }
    let mut out = String::from_str(root);
    out.append("/");
    out.append(name);
    out
}

/// Expresses `p` relative to `root`, or `None` if `p` does not lie
/// strictly under `root`.
pub fn rel_name(root: &str, p: &str) -> (r: Option<String>)
    ensures
        r is Some <==> is_under(root@, p@),
        r matches Some(rel) ==> rel@ == rel_of(root@, p@),
{
    let rn = root.unicode_len();
    let pn = p.unicode_len();
    if pn <= rn {
        return None;
    }
    if pn - rn < 2 {
        return None;
    }
    let mut i: usize = 0;
    while i < rn
        invariant
            rn == root@.len(),
            pn == p@.len(),
            pn > rn + 1,
            i <= rn,
            forall|j: int| 0 <= j < i ==> p@[j] == root@[j],
        decreases rn - i,
    {
        if p.get_char(i) != root.get_char(i) {
            proof {
                assert(p@.take(rn as int)[i as int] == p@[i as int]);
                assert(!is_under(root@, p@));
            }
            return None;
        }
        i = i + 1;
    }
    if p.get_char(rn) != '/' {
        return None;
    }
    proof {
        assert(p@.take(rn as int) =~= root@);
    }
    let rest = p.substring_char(rn + 1, pn);
    proof {
        assert(rest@ =~= rel_of(root@, p@));
    }
    Some(String::from_str(rest))
}

/// Whether a name's UTF-8 form fits in an archive header's name field.
pub open spec fn name_len_ok(s: Seq<char>) -> bool {
    vstd::utf8::encode_utf8(s).len() < 65536
}

/// Decides [`name_len_ok`] for a stored entry name.
pub fn name_fits(s: &str) -> (r: bool)
    ensures
        r == name_len_ok(s@),
{
    let b = s.as_bytes();
    proof {
        assert(b@ == vstd::utf8::encode_utf8(s@));
    }
    b.len() < 65536
}

} // verus!
