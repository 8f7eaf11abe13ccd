//! Unix paths as bytes, read the way `std::path::Path` reads them: a path is
//! an optional root `/` or leading `.` followed by components separated by
//! `/`, where empty and `.` components in the body do not count.
use vstd::prelude::*;

use crate::text::concat;

verus! {

/// The byte of `/`.
pub open spec fn slash() -> u8 {
    47
}

/// The byte of `.`.
pub open spec fn dot() -> u8 {
    46
}

/// How many bytes come before the body: one for a root `/` or for a
/// leading `.` component, none otherwise.
pub open spec fn body_start(p: Seq<u8>) -> int {
    if p.len() > 0 && p[0] == slash() {
        1
    } else if p.len() > 0 && p[0] == dot() && (p.len() == 1 || p[1] == slash()) {
        1
    } else {
        0
    }
}

/// The end of `p[..e]` once trailing separators and `.` components are
/// dropped, never going below the body start `b`.
pub open spec fn trim_back(p: Seq<u8>, b: int, e: int) -> int
    decreases e,
{
    if e <= b || e <= 0 {
        b
    } else if p[e - 1] == slash() {
        trim_back(p, b, e - 1)
    } else if p[e - 1] == dot() && (e - 1 == b || p[e - 2] == slash()) {
        trim_back(p, b, e - 1)
    } else {
        e
    }
}

/// The start of the component that ends at `e`.
pub open spec fn piece_start(p: Seq<u8>, b: int, e: int) -> int
    decreases e,
{
    if e <= b || e <= 0 {
        b
    } else if p[e - 1] == slash() {
        e
    } else {
        piece_start(p, b, e - 1)
    }
}

/// The end of the last component.
pub open spec fn last_end(p: Seq<u8>) -> int {
    trim_back(p, body_start(p), p.len() as int)
}

/// The start of the last component.
pub open spec fn last_start(p: Seq<u8>) -> int {
    piece_start(p, body_start(p), last_end(p))
}

/// The final component of `p` where it is a name, as `Path::file_name`
/// gives it: none for an empty path, a bare root or `.`, or one that ends
/// in `..`.
pub open spec fn file_name(p: Seq<u8>) -> Option<Seq<u8>> {
    if last_end(p) <= body_start(p) {
        None
    } else {
        let c = p.subrange(last_start(p), last_end(p));
        if c == seq![dot(), dot()] {
            None
        } else {
            Some(c)
        }
    }
}

/// `p` without its final component, as `Path::parent` gives it: none for
/// an empty path or a bare root.
pub open spec fn parent(p: Seq<u8>) -> Option<Seq<u8>> {
    let b = body_start(p);
    if last_end(p) > b {
        Some(p.subrange(0, trim_back(p, b, last_start(p))))
    } else if b == 1 && p[0] == dot() {
        Some(Seq::empty())
    } else {
        None
    }
}

proof fn lemma_trim_back_bounds(p: Seq<u8>, b: int, e: int)
    requires
        0 <= b <= e <= p.len(),
    ensures
        b <= trim_back(p, b, e) <= e,
    decreases e,
{
    if e > b && e > 0 {
        lemma_trim_back_bounds(p, b, e - 1);
    }
}

proof fn lemma_piece_start_bounds(p: Seq<u8>, b: int, e: int)
    requires
        0 <= b <= e <= p.len(),
    ensures
        b <= piece_start(p, b, e) <= e,
    decreases e,
{
    if e > b && e > 0 {
        lemma_piece_start_bounds(p, b, e - 1);
    }
}

fn body_start_of(p: &Vec<u8>) -> (r: usize)
    ensures
        r == body_start(p@),
        r <= p@.len(),
{
    let n = p.len();
    if n > 0 && p[0] == 47u8 {
        1
    } else if n > 0 && p[0] == 46u8 && (n == 1 || p[1] == 47u8) {
        1
    } else {
        0
    }
}

fn trim_back_of(p: &Vec<u8>, b: usize, e: usize) -> (r: usize)
    requires
        b <= e <= p@.len(),
    ensures
        r == trim_back(p@, b as int, e as int),
        b <= r <= e,
    decreases e,
{
    proof {
        lemma_trim_back_bounds(p@, b as int, e as int);
    }
    if e <= b || e == 0 {
        b
    } else if p[e - 1] == 47u8 {
        trim_back_of(p, b, e - 1)
    } else if p[e - 1] == 46u8 && (e - 1 == b || p[e - 2] == 47u8) {
        trim_back_of(p, b, e - 1)
    } else {
        e
    }
}

fn piece_start_of(p: &Vec<u8>, b: usize, e: usize) -> (r: usize)
    requires
        b <= e <= p@.len(),
    ensures
        r == piece_start(p@, b as int, e as int),
        b <= r <= e,
    decreases e,
{
    proof {
        lemma_piece_start_bounds(p@, b as int, e as int);
    }
    if e <= b || e == 0 {
        b
    } else if p[e - 1] == 47u8 {
        e
    } else {
        piece_start_of(p, b, e - 1)
    }
}

/// The bytes `p[from..to]`.
pub fn byte_range(p: &Vec<u8>, from: usize, to: usize) -> (r: Vec<u8>)
    requires
        from <= to <= p@.len(),
    ensures
        r@ == p@.subrange(from as int, to as int),
{
    let mut out: Vec<u8> = Vec::new();
    let mut i = from;
    while i < to
        invariant
            from <= i <= to <= p@.len(),
            out@ =~= p@.subrange(from as int, i as int),
        decreases to - i,
    {
        out.push(p[i]);
        i = i + 1;
    }
    out
}

/// The final component of a path where it is a name.
pub fn path_file_name(p: &Vec<u8>) -> (r: Option<Vec<u8>>)
    ensures
        match (r, file_name(p@)) {
            (Some(a), Some(b)) => a@ == b,
            (None, None) => true,
            _ => false,
        },
{
    let b = body_start_of(p);
    let e = trim_back_of(p, b, p.len());
    if e <= b {
        return None;
    }
    let s = piece_start_of(p, b, e);
    if e - s == 2 && p[s] == 46u8 && p[s + 1] == 46u8 {
        assert(p@.subrange(s as int, e as int) =~= seq![dot(), dot()]);
        None
    } else {
        let c = byte_range(p, s, e);
        assert(c@ != seq![dot(), dot()]) by {
            if c@ == seq![dot(), dot()] {
                assert(c@.len() == 2);
                assert(c@[0] == p@[s as int]);
                assert(c@[1] == p@[s + 1]);
            }
        }
        Some(c)
    }
}

/// A path without its final component.
pub fn path_parent(p: &Vec<u8>) -> (r: Option<Vec<u8>>)
    ensures
        match (r, parent(p@)) {
            (Some(a), Some(b)) => a@ == b,
            (None, None) => true,
            _ => false,
        },
{
    let b = body_start_of(p);
    let e = trim_back_of(p, b, p.len());
    if e > b {
        let s = piece_start_of(p, b, e);
        let t = trim_back_of(p, b, s);
        Some(byte_range(p, 0, t))
    } else if b == 1 && p[0] == 46u8 {
        Some(Vec::new())
    } else {
        None
    }
}

/// Whether two byte strings are equal.
pub fn bytes_eq(a: &[u8], b: &[u8]) -> (r: bool)
    ensures
        r == (a@ == b@),
{
    if a.len() != b.len() {
        return false;
    }
    let mut i: usize = 0;
    while i < a.len()
        invariant
            a@.len() == b@.len(),
            i <= a@.len(),
            forall|k: int| 0 <= k < i ==> a@[k] == b@[k],
        decreases a@.len() - i,
    {
        if a[i] != b[i] {
            return false;
        }
        i = i + 1;
    }
    assert(a@ =~= b@);
    true
}

/// `base` joined with `p` as `Path::join` joins them: an absolute `p`
/// replaces `base`, else a `/` separates them unless `base` is empty or
/// ends in one.
pub open spec fn join_path(base: Seq<char>, p: Seq<char>) -> Seq<char> {
    if p.len() > 0 && p[0] == '/' {
        p
    } else if base.len() == 0 || base.last() == '/' {
        base + p
    } else {
        base + "/"@ + p
    }
}

/// `base` joined with `p`.
pub fn join_path_text(base: &str, p: &str) -> (r: String)
    ensures
        r@ == join_path(base@, p@),
{
    let n = p.unicode_len();
    if n > 0 && p.get_char(0) == '/' {
        return p.to_owned();
    }
    let m = base.unicode_len();
    if m == 0 || base.get_char(m - 1) == '/' {
        concat(base, p)
    } else {
        let r = concat(base, "/").concat(p);
        r
    }
}

} // verus!
