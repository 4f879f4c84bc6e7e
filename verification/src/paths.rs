//! Unix paths held as their bytes: joining a name onto a path and taking the
//! last component of a path, as `Path::join` and `Path::file_name` do.
use vstd::prelude::*;

use crate::text::{lemma_split_on_nonempty, split_bytes, split_on};

verus! {

/// The byte of the path separator `/`.
pub open spec fn separator() -> u8 {
    0x2f
}

/// The byte of `.`.
pub open spec fn dot() -> u8 {
    0x2e
}

/// `base` joined with `name` as `Path::join` joins them on Unix: an absolute
/// `name` replaces `base`; otherwise a `/` goes between the two unless `base`
/// is empty or already ends in one.
pub open spec fn joined_path(base: Seq<u8>, name: Seq<u8>) -> Seq<u8> {
    if name.len() > 0 && name[0] == separator() {
        name
    } else if base.len() == 0 || base.last() == separator() {
        base + name
    } else {
        base + seq![separator()] + name
    }
}

/// A path component that names something: neither empty nor `.`.
pub open spec fn is_named_segment(s: Seq<u8>) -> bool {
    s.len() > 0 && s != seq![dot()]
}

/// The last named component among `segs`.
pub open spec fn last_named(segs: Seq<Seq<u8>>) -> Option<Seq<u8>>
    decreases segs.len(),
{
    if segs.len() == 0 {
        None
    } else if is_named_segment(segs.last()) {
        Some(segs.last())
    } else {
        last_named(segs.drop_last())
    }
}

/// The final component of a path, as `Path::file_name` gives it: the last
/// component once empty and `.` components are set aside, unless that is
/// `..`; `None` for a path with no such component (such as `/`, `.` or ``).
pub open spec fn file_name_of(p: Seq<u8>) -> Option<Seq<u8>> {
    match last_named(split_on(p, separator())) {
        Some(s) => if s == seq![dot(), dot()] {
            None
        } else {
            Some(s)
        },
        None => None,
    }
}

/// The path `q` lies within the directory `r`: it is `r` itself or a path
/// below it, `r` followed by a separator and more components.
pub open spec fn lies_within(q: Seq<u8>, r: Seq<u8>) -> bool {
    &&& r.len() <= q.len()
    &&& q.take(r.len() as int) == r
    &&& (q.len() == r.len() || (r.len() > 0 && r.last() == separator()) || q[r.len() as int]
        == separator())
}

/// Whether the path `q` lies within the directory `r`.
pub fn path_lies_within(q: &[u8], r: &[u8]) -> (within: bool)
    ensures
        within == lies_within(q@, r@),
{
    let rl = r.len();
    if rl > q.len() {
        return false;
    }
    let mut i: usize = 0;
    while i < rl
        invariant
            rl == r@.len(),
            rl <= q@.len(),
            i <= rl,
            q@.take(i as int) == r@.take(i as int),
        decreases rl - i,
    {
        if q[i] != r[i] {
            assert(q@.take(rl as int)[i as int] != r@[i as int]);
            assert(q@.take(rl as int) != r@);
            return false;
        }
        assert(q@.take(i + 1) =~= q@.take(i as int).push(q@[i as int]));
        assert(r@.take(i + 1) =~= r@.take(i as int).push(r@[i as int]));
        i = i + 1;
    }
    assert(r@.take(rl as int) =~= r@);
    rl == q.len() || (rl > 0 && r[rl - 1] == 0x2f) || q[rl] == 0x2f
}

/// Appends the bytes of `s` to `v`.
fn append_bytes(v: &mut Vec<u8>, s: &[u8])
    ensures
        final(v)@ == old(v)@ + s@,
{
    let ghost start = v@;
    let mut i: usize = 0;
    while i < s.len()
        invariant
            i <= s@.len(),
            v@ == start + s@.take(i as int),
        decreases s@.len() - i,
    {
        v.push(s[i]);
        assert(s@.take(i + 1) =~= s@.take(i as int).push(s@[i as int]));
        assert(v@ =~= start + s@.take(i + 1));
        i = i + 1;
    }
    assert(s@.take(i as int) =~= s@);
}

/// Joins `name` onto `base`.
pub fn join_path(base: &[u8], name: &[u8]) -> (p: Vec<u8>)
    ensures
        p@ == joined_path(base@, name@),
{
    let mut p: Vec<u8> = Vec::new();
    if name.len() > 0 && name[0] == 0x2f {
        append_bytes(&mut p, name);
        assert(p@ =~= name@);
        return p;
    }
    append_bytes(&mut p, base);
    let needs_separator = base.len() > 0 && base[base.len() - 1] != 0x2f;
    if needs_separator {
        p.push(0x2f);
    }
    append_bytes(&mut p, name);
    if needs_separator {
        assert(p@ =~= base@ + seq![separator()] + name@);
    } else {
        assert(p@ =~= base@ + name@);
    }
    p
}

fn is_named(s: &Vec<u8>) -> (r: bool)
    ensures
        r == is_named_segment(s@),
{
    if s.len() == 0 {
        return false;
    }
    if s.len() == 1 && s[0] == 0x2e {
        assert(s@ =~= seq![dot()]);
        return false;
    }
    if s.len() == 1 {
        assert(s@[0] != seq![dot()][0]);
    }
    true
}

fn is_dot_dot(s: &Vec<u8>) -> (r: bool)
    ensures
        r == (s@ == seq![dot(), dot()]),
{
    if s.len() == 2 && s[0] == 0x2e && s[1] == 0x2e {
        assert(s@ =~= seq![dot(), dot()]);
        true
    } else {
        if s.len() == 2 {
            assert(s@[0] != seq![dot(), dot()][0] || s@[1] != seq![dot(), dot()][1]);
        }
        false
    }
}

/// The final component of `path`, if it has one.
pub fn file_name(path: &[u8]) -> (r: Option<Vec<u8>>)
    ensures
        match r {
            Some(s) => file_name_of(path@) == Some(s@),
            None => file_name_of(path@) is None,
        },
{
    let segs = split_bytes(path, 0x2f);
    let ghost all = segs.deep_view();
    let mut k: usize = segs.len();
    assert(all.take(k as int) =~= all);
    while k > 0
        invariant
            k <= segs@.len(),
            all == segs.deep_view(),
            all == split_on(path@, separator()),
            last_named(all) == last_named(all.take(k as int)),
        decreases k,
    {
        let seg = &segs[k - 1];
        assert(seg.deep_view() =~= seg@);
        assert(all.take(k as int).drop_last() =~= all.take(k - 1));
        assert(all.take(k as int).last() == seg@);
        if is_named(seg) {
            if is_dot_dot(seg) {
                return None;
            }
            return Some(seg.clone());
        }
        k = k - 1;
    }
    None
}

/// Splitting `a`, a separator and then `b` without separators gives the
/// pieces of `a` followed by `b`.
pub proof fn lemma_split_after_separator<A>(a: Seq<A>, b: Seq<A>, sep: A)
    requires
        forall|i: int| 0 <= i < b.len() ==> b[i] != sep,
    ensures
        split_on(a + seq![sep] + b, sep) == split_on(a, sep).push(b),
    decreases b.len(),
{
    let s = a + seq![sep] + b;
    if b.len() == 0 {
        assert(s.drop_last() =~= a);
        assert(s.last() == sep);
        assert(b =~= Seq::<A>::empty());
    } else {
        let b0 = b.drop_last();
        lemma_split_after_separator(a, b0, sep);
        assert(s.drop_last() =~= a + seq![sep] + b0);
        lemma_split_on_nonempty(a + seq![sep] + b0, sep);
        assert(b0.push(b.last()) =~= b);
        assert(split_on(s, sep) =~= split_on(a, sep).push(b));
    }
}

/// Splitting a sequence without separators gives that sequence as the one
/// piece.
pub proof fn lemma_split_without_separator<A>(b: Seq<A>, sep: A)
    requires
        forall|i: int| 0 <= i < b.len() ==> b[i] != sep,
    ensures
        split_on(b, sep) == seq![b],
    decreases b.len(),
{
    if b.len() == 0 {
        assert(b =~= Seq::<A>::empty());
    } else {
        let b0 = b.drop_last();
        lemma_split_without_separator(b0, sep);
        assert(b0.push(b.last()) =~= b);
        assert(split_on(b, sep) =~= seq![b]);
    }
}

} // verus!
