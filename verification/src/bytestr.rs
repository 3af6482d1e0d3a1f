//! Byte-string helpers: paths, URLs and file contents are plain byte vectors,
//! and every operation on them is specified over `Seq<u8>`.
use vstd::prelude::*;
use vstd::string::*;

verus! {

/// Byte value of `/`, the path separator.
pub const SLASH: u8 = 47;

/// Byte value of `.`, the extension separator.
pub const DOT: u8 = 46;

/// Bytes of a string literal, for building byte-level constants.
pub fn str_bytes(s: &str) -> (r: Vec<u8>)
    ensures
        r@ == s.spec_bytes(),
{
    s.as_bytes_vec()
}

/// True exactly when the two byte strings hold the same bytes.
pub fn bytes_eq(a: &Vec<u8>, b: &Vec<u8>) -> (r: bool)
    ensures
        r == (a@ == b@),
{
    if a.len() != b.len() {
        return false;
    }
    let mut i: usize = 0;
    while i < a.len()
        invariant
            i <= a.len(),
            a.len() == b.len(),
            forall|j: int| 0 <= j < i ==> a@[j] == b@[j],
        decreases a.len() - i,
    {
        if a[i] != b[i] {
            return false;
        }
        i += 1;
    }
    proof {
        assert(a@ =~= b@);
    }
    true
}

/// A fresh copy of a byte string.
pub fn copy_bytes(v: &Vec<u8>) -> (r: Vec<u8>)
    ensures
        r@ == v@,
{
    let mut out: Vec<u8> = Vec::new();
    let mut i: usize = 0;
    while i < v.len()
        invariant
            i <= v.len(),
            out@ == v@.take(i as int),
        decreases v.len() - i,
    {
        out.push(v[i]);
        proof {
            assert(out@ =~= v@.take(i + 1 as int));
        }
        i += 1;
    }
    proof {
        assert(v@.take(v@.len() as int) =~= v@);
    }
    out
}

/// The bytes of `v` from `from` (inclusive) to `to` (exclusive).
pub fn sub_bytes(v: &Vec<u8>, from: usize, to: usize) -> (r: Vec<u8>)
    requires
        from <= to <= v@.len(),
    ensures
        r@ == v@.subrange(from as int, to as int),
{
    let mut out: Vec<u8> = Vec::new();
    let mut i: usize = from;
    while i < to
        invariant
            from <= i <= to <= v@.len(),
            out@ == v@.subrange(from as int, i as int),
        decreases to - i,
    {
        out.push(v[i]);
        proof {
            assert(out@ =~= v@.subrange(from as int, i + 1 as int));
        }
        i += 1;
    }
    out
}

/// Appends all of `s` to `out`.
pub fn append_bytes(out: &mut Vec<u8>, s: &Vec<u8>)
    ensures
        final(out)@ == old(out)@ + s@,
{
    let mut i: usize = 0;
    while i < s.len()
        invariant
            i <= s.len(),
            out@ == old(out)@ + s@.take(i as int),
        decreases s.len() - i,
    {
        out.push(s[i]);
        proof {
            assert(out@ =~= old(out)@ + s@.take(i + 1 as int));
        }
        i += 1;
    }
    proof {
        assert(old(out)@ + s@.take(s@.len() as int) =~= old(out)@ + s@);
    }
}

/// The index of the last occurrence of `c` in `s`, if any.
pub open spec fn spec_rfind(s: Seq<u8>, c: u8) -> Option<int>
    decreases s.len(),
{
    if s.len() == 0 {
        None
    } else if s.last() == c {
        Some(s.len() - 1)
    } else {
        spec_rfind(s.drop_last(), c)
    }
}

proof fn lemma_rfind_step(s: Seq<u8>, c: u8, i: int)
    requires
        0 < i <= s.len(),
        s[i - 1] != c,
    ensures
        spec_rfind(s.take(i), c) == spec_rfind(s.take(i - 1), c),
{
    assert(s.take(i).last() == s[i - 1]);
    assert(s.take(i).drop_last() =~= s.take(i - 1));
}

/// Finds the last occurrence of byte `c` in `v`.
pub fn rfind(v: &Vec<u8>, c: u8) -> (r: Option<usize>)
    ensures
        match r {
            Some(i) => spec_rfind(v@, c) == Some(i as int),
            None => spec_rfind(v@, c) is None,
        },
{
    let mut i: usize = v.len();
    proof {
        assert(v@.take(v@.len() as int) =~= v@);
    }
    while i > 0
        invariant
            i <= v@.len(),
            spec_rfind(v@, c) == spec_rfind(v@.take(i as int), c),
        decreases i,
    {
        i -= 1;
        if v[i] == c {
            proof {
                assert(v@.take(i + 1 as int).last() == v@[i as int]);
            }
            return Some(i);
        }
        proof {
            lemma_rfind_step(v@, c, i + 1 as int);
        }
    }
    proof {
        assert(v@.take(0) =~= Seq::<u8>::empty());
    }
    None
}

} // verus!
// === path-shaped byte strings ===
use vstd::prelude::*;

verus! {

/// The extension of a path: the bytes after the last `.` of the final path
/// segment, provided that dot is not the segment's first byte.
pub open spec fn spec_extension(p: Seq<u8>) -> Option<Seq<u8>> {
    match spec_rfind(p, DOT) {
        None => None,
        Some(di) => {
            let start = match spec_rfind(p, SLASH) {
                None => 0int,
                Some(si) => si + 1,
            };
            if di > start {
                Some(p.skip(di + 1))
            } else {
                None
            }
        },
    }
}

/// The extension of `p`, as `spec_extension` describes it.
pub fn extension(p: &Vec<u8>) -> (r: Option<Vec<u8>>)
    ensures
        match r {
            Some(e) => spec_extension(p@) == Some(e@),
            None => spec_extension(p@) is None,
        },
{
    let n: usize = p.len();
    let dot = rfind(p, DOT);
    proof {
        lemma_rfind_in_range(p@, DOT);
        lemma_rfind_in_range(p@, SLASH);
    }
    match dot {
        None => None,
        Some(di) => {
            let start: usize = match rfind(p, SLASH) {
                None => 0,
                Some(si) => si + 1,
            };
            if di > start {
                proof {
                    assert(0 <= di < p@.len()) by {
                        lemma_rfind_in_range(p@, DOT);
                    }
                    assert(p@.skip(di + 1) =~= p@.subrange(di + 1, p@.len() as int));
                }
                Some(sub_bytes(p, di + 1, n))
            } else {
                None
            }
        },
    }
}

proof fn lemma_rfind_in_range(s: Seq<u8>, c: u8)
    ensures
        match spec_rfind(s, c) {
            Some(i) => 0 <= i < s.len() && s[i] == c,
            None => true,
        },
    decreases s.len(),
{
    if s.len() > 0 && s.last() != c {
        lemma_rfind_in_range(s.drop_last(), c);
    }
}

/// `p` with its extension replaced by `ext`: the bytes after the last dot of
/// the final segment are exchanged for `ext`; a path without an extension gets
/// `.` and `ext` appended.
pub open spec fn spec_with_extension(p: Seq<u8>, ext: Seq<u8>) -> Seq<u8> {
    match spec_rfind(p, DOT) {
        None => p + seq![DOT] + ext,
        Some(di) => {
            let start = match spec_rfind(p, SLASH) {
                None => 0int,
                Some(si) => si + 1,
            };
            if di > start {
                p.take(di + 1) + ext
            } else {
                p + seq![DOT] + ext
            }
        },
    }
}

/// Replaces the extension of `p` by `ext`, as `spec_with_extension` describes.
pub fn with_extension(p: &Vec<u8>, ext: &Vec<u8>) -> (r: Vec<u8>)
    ensures
        r@ == spec_with_extension(p@, ext@),
{
    let n: usize = p.len();
    let dot = rfind(p, DOT);
    proof {
        lemma_rfind_in_range(p@, DOT);
        lemma_rfind_in_range(p@, SLASH);
    }
    let keep: Option<usize> = match dot {
        None => None,
        Some(di) => {
            let start: usize = match rfind(p, SLASH) {
                None => 0,
                Some(si) => si + 1,
            };
            if di > start {
                Some(di)
            } else {
                None
            }
        },
    };
    match keep {
        Some(di) => {
            proof {
                lemma_rfind_in_range(p@, DOT);
            }
            let mut out = sub_bytes(p, 0, di + 1);
            proof {
                assert(p@.subrange(0, di + 1 as int) =~= p@.take(di + 1 as int));
            }
            append_bytes(&mut out, ext);
            out
        },
        None => {
            let mut out = copy_bytes(p);
            out.push(DOT);
            append_bytes(&mut out, ext);
            proof {
                assert(out@ =~= p@ + seq![DOT] + ext@);
            }
            out
        },
    }
}

/// The final segment of a path: the bytes after the last `/`, or the whole
/// path when it has no `/`.
pub open spec fn spec_file_name(p: Seq<u8>) -> Seq<u8> {
    match spec_rfind(p, SLASH) {
        None => p,
        Some(si) => p.skip(si + 1),
    }
}

/// The final segment of `p`, as `spec_file_name` describes it.
pub fn file_name(p: &Vec<u8>) -> (r: Vec<u8>)
    ensures
        r@ == spec_file_name(p@),
{
    let n: usize = p.len();
    proof {
        lemma_rfind_in_range(p@, SLASH);
    }
    match rfind(p, SLASH) {
        None => copy_bytes(p),
        Some(si) => {
            proof {
                lemma_rfind_in_range(p@, SLASH);
                assert(p@.skip(si + 1) =~= p@.subrange(si + 1, p@.len() as int));
            }
            sub_bytes(p, si + 1, n)
        },
    }
}

/// True when `path` lies under the directory `dir` (or is `dir` itself):
/// `path` starts with `dir`, and the next byte, if any, is `/`.
pub open spec fn spec_is_under(dir: Seq<u8>, path: Seq<u8>) -> bool {
    ||| path == dir
    ||| (path.len() > dir.len() && path.take(dir.len() as int) == dir && path[dir.len() as int]
        == SLASH)
}

/// Decides `spec_is_under(dir@, path@)`.
pub fn is_under(dir: &Vec<u8>, path: &Vec<u8>) -> (r: bool)
    ensures
        r == spec_is_under(dir@, path@),
{
    if path.len() < dir.len() {
        proof {
            assert(path@ != dir@) by {
                if path@ == dir@ {
                    assert(path@.len() == dir@.len());
                }
            }
        }
        return false;
    }
    let prefix = sub_bytes(path, 0, dir.len());
    if !bytes_eq(&prefix, dir) {
        proof {
            if path@ == dir@ {
                assert(path@.subrange(0, dir@.len() as int) =~= dir@);
            }
            assert(path@.subrange(0, dir@.len() as int) == path@.take(dir@.len() as int));
        }
        return false;
    }
    if path.len() == dir.len() {
        proof {
            assert(path@ =~= dir@);
        }
        return true;
    }
    proof {
        assert(path@ != dir@) by {
            if path@ == dir@ {
                assert(path@.len() == dir@.len());
            }
        }
    }
    path[dir.len()] == SLASH
}

/// The remainder of `path` under the base directory `base`: empty when they
/// are equal, the bytes past `base/` when `path` lies below it, and nothing
/// when `path` is not under `base` at all.
pub open spec fn spec_strip_base(base: Seq<u8>, path: Seq<u8>) -> Option<Seq<u8>> {
    if path == base {
        Some(Seq::empty())
    } else if spec_is_under(base, path) {
        Some(path.skip(base.len() as int + 1))
    } else {
        None
    }
}

/// Strips `base` (and the separator after it) from `path`, as
/// `spec_strip_base` describes.
pub fn strip_base(base: &Vec<u8>, path: &Vec<u8>) -> (r: Option<Vec<u8>>)
    ensures
        match r {
            Some(rest) => spec_strip_base(base@, path@) == Some(rest@),
            None => spec_strip_base(base@, path@) is None,
        },
{
    if !is_under(base, path) {
        return None;
    }
    if path.len() == base.len() {
        proof {
            assert(path@ =~= base@);
        }
        return Some(Vec::new());
    }
    proof {
        assert(path@ != base@) by {
            if path@ == base@ {
                assert(path@.len() == base@.len());
            }
        }
        assert(path@.skip(base@.len() as int + 1) =~= p_sub(base@, path@));
    }
    Some(sub_bytes(path, base.len() + 1, path.len()))
}

/// The subrange that `strip_base` returns on the strict case.
spec fn p_sub(base: Seq<u8>, path: Seq<u8>) -> Seq<u8> {
    path.subrange(base.len() as int + 1, path.len() as int)
}

/// The decimal digits of `n`, most significant first.
pub open spec fn spec_decimal(n: nat) -> Seq<u8>
    decreases n,
{
    if n < 10 {
        seq![(48 + n) as u8]
    } else {
        spec_decimal(n / 10).push((48 + n % 10) as u8)
    }
}

/// Appends the decimal digits of `n` to `out`.
pub fn push_decimal(out: &mut Vec<u8>, n: u64)
    ensures
        final(out)@ == old(out)@ + spec_decimal(n as nat),
    decreases n,
{
    if n < 10 {
        out.push(48 + (n as u8));
        proof {
            assert(out@ =~= old(out)@ + spec_decimal(n as nat));
        }
    } else {
        proof {
            assert(n / 10 < n && n / 10 >= 1) by (nonlinear_arith)
                requires
                    n >= 10,
            ;
        }
        push_decimal(out, n / 10);
        out.push(48 + ((n % 10) as u8));
        proof {
            assert((n % 10) < 10) by (nonlinear_arith);
            assert((n as nat) / 10 == (n / 10) as nat);
            assert((n as nat) % 10 == (n % 10) as nat);
            assert(out@ =~= old(out)@ + spec_decimal(n as nat));
        }
    }
}

} // verus!
