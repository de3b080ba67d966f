use vstd::prelude::*;
use crate::errors::LoadError;
use crate::specifier::{
    is_absolute_seq, scheme_end_at, scheme_end_of, find_scheme_end, copy_bytes, ModuleSpecifier,
};

verus! {

/// The first `/` at or after `k`, or `s.len()` when there is none.
pub open spec fn first_slash_from(s: Seq<u8>, k: int) -> int
    decreases s.len() - k,
{
    if k < 0 {
        0
    } else if k >= s.len() {
        s.len() as int
    } else if s[k] == 47 {
        k
    } else {
        first_slash_from(s, k + 1)
    }
}

/// The last `/` at an index in `[0, k]`, or `-1` when there is none.
pub open spec fn last_slash_upto(s: Seq<u8>, k: int) -> int
    decreases k + 1,
{
    if k < 0 || k >= s.len() {
        -1
    } else if s[k] == 47 {
        k
    } else {
        last_slash_upto(s, k - 1)
    }
}

/// The authority marker `//` follows the `:` that ends at `e`.
pub open spec fn has_authority(s: Seq<u8>, e: int) -> bool {
    e + 2 < s.len() && s[e + 1] == 47 && s[e + 2] == 47
}

/// Where the path of the absolute identifier `s` begins: after the
/// authority when there is one, else right after the scheme's `:`.
pub open spec fn path_start_of(s: Seq<u8>) -> int {
    let e = scheme_end_of(s);
    if has_authority(s, e) {
        first_slash_from(s, e + 3)
    } else {
        e + 1
    }
}

/// A `./` prefix.
pub open spec fn dot_prefix(s: Seq<u8>) -> bool {
    s.len() >= 2 && s[0] == 46 && s[1] == 47
}

/// A `../` prefix.
pub open spec fn dotdot_prefix(s: Seq<u8>) -> bool {
    s.len() >= 3 && s[0] == 46 && s[1] == 46 && s[2] == 47
}

/// Drop the trailing segment of the directory `d` (which ends in `/`),
/// never rising above the path root at `root`.
pub open spec fn parent_dir(d: Seq<u8>, root: int) -> Seq<u8> {
    let j = last_slash_upto(d, d.len() - 2);
    if j < root {
        d
    } else {
        d.subrange(0, j + 1)
    }
}

/// Resolve the relative reference `r` against the directory `d` (which
/// ends in `/`), removing dot segments anywhere in the merged path:
/// each `.` segment is dropped, each `..` segment drops one trailing
/// segment of the directory built so far (stopping at the path root),
/// and every plain segment is appended to it.
pub open spec fn resolve_rel(d: Seq<u8>, root: int, r: Seq<u8>) -> Seq<u8>
    decreases r.len(),
{
    if dot_prefix(r) {
        resolve_rel(d, root, r.skip(2))
    } else if dotdot_prefix(r) {
        resolve_rel(parent_dir(d, root), root, r.skip(3))
    } else if r == seq![46u8] {
        d
    } else if r == seq![46u8, 46u8] {
        parent_dir(d, root)
    } else {
        let j = first_slash_from(r, 0);
        if j < 0 || j >= r.len() {
            d + r
        } else {
            resolve_rel(d + r.subrange(0, j + 1), root, r.skip(j + 1))
        }
    }
}

/// What resolution returns: an absolute reference is returned unchanged;
/// `//`, `/`, `./` and `../` forms are combined with the referrer by
/// same-scheme relative-resolution rules; any other form is schemeless
/// or malformed and yields `None`.
pub open spec fn resolve_seq(raw: Seq<u8>, referrer: Seq<u8>) -> Option<Seq<u8>> {
    if is_absolute_seq(raw) {
        Some(raw)
    } else if raw.len() >= 2 && raw[0] == 47 && raw[1] == 47 {
        Some(referrer.subrange(0, scheme_end_of(referrer) + 1) + raw)
    } else if raw.len() >= 1 && raw[0] == 47 {
        Some(referrer.subrange(0, path_start_of(referrer)) + raw)
    } else if dot_prefix(raw) || dotdot_prefix(raw) {
        let root = path_start_of(referrer);
        let de = last_slash_upto(referrer, referrer.len() - 1);
        if de < root {
            None
        } else {
            Some(resolve_rel(referrer.subrange(0, de + 1), root, raw))
        }
    } else {
        None
    }
}

/// A scheme end carries over to any sequence that agrees with `s` on the
/// bytes up to and including the `:`.
pub proof fn lemma_scheme_end_transfer(s: Seq<u8>, t: Seq<u8>, e: int)
    requires
        scheme_end_at(s, e),
        e < t.len(),
        forall|k: int| 0 <= k <= e ==> t[k] == s[k],
    ensures
        scheme_end_at(t, e),
{
    assert(t[0] == s[0]);
    assert(t[e] == s[e]);
    assert forall|j: int| 1 <= j < e implies crate::specifier::is_scheme_byte(#[trigger] t[j]) by {
        assert(t[j] == s[j]);
    }
}

/// The parent directory keeps the scheme and stays at least as long as
/// the path root.
pub proof fn lemma_parent_dir_scheme(d: Seq<u8>, root: int, e: int)
    requires
        scheme_end_at(d, e),
        e < root <= d.len(),
    ensures
        scheme_end_at(parent_dir(d, root), e),
        root <= parent_dir(d, root).len() <= d.len(),
{
    let j = last_slash_upto(d, d.len() - 2);
    lemma_last_slash_upto_bounds(d, d.len() - 2);
    if j >= root {
        lemma_scheme_end_transfer(d, parent_dir(d, root), e);
    }
}

/// Relative resolution never disturbs the scheme of the base directory.
pub proof fn lemma_resolve_rel_scheme(d: Seq<u8>, root: int, r: Seq<u8>, e: int)
    requires
        scheme_end_at(d, e),
        e < root <= d.len(),
    ensures
        scheme_end_at(resolve_rel(d, root, r), e),
    decreases r.len(),
{
    if dot_prefix(r) {
        lemma_resolve_rel_scheme(d, root, r.skip(2), e);
    } else if dotdot_prefix(r) {
        lemma_parent_dir_scheme(d, root, e);
        lemma_resolve_rel_scheme(parent_dir(d, root), root, r.skip(3), e);
    } else if r == seq![46u8] {
    } else if r == seq![46u8, 46u8] {
        lemma_parent_dir_scheme(d, root, e);
    } else {
        let j = first_slash_from(r, 0);
        lemma_first_slash_range(r, 0);
        if j >= r.len() {
            lemma_scheme_end_transfer(d, d + r, e);
        } else {
            let d2 = d + r.subrange(0, j + 1);
            lemma_scheme_end_transfer(d, d2, e);
            lemma_resolve_rel_scheme(d2, root, r.skip(j + 1), e);
        }
    }
}

/// Scanning for a `/` in a suffix matches scanning the whole sequence
/// from the cut, shifted by the cut.
pub proof fn lemma_first_slash_shift(s: Seq<u8>, pos: int, k: int)
    requires
        0 <= pos,
        0 <= k,
        pos + k <= s.len(),
    ensures
        first_slash_from(s.skip(pos), k) == first_slash_from(s, pos + k) - pos,
    decreases s.len() - pos - k,
{
    let tail = s.skip(pos);
    if k >= tail.len() {
    } else if tail[k] == 47 {
    } else {
        lemma_first_slash_shift(s, pos, k + 1);
    }
}

/// A resolved identifier is itself absolute.
pub proof fn lemma_resolve_absolute(raw: Seq<u8>, referrer: Seq<u8>)
    requires
        is_absolute_seq(referrer),
        resolve_seq(raw, referrer) is Some,
    ensures
        is_absolute_seq(resolve_seq(raw, referrer).unwrap()),
{
    let e = scheme_end_of(referrer);
    assert(scheme_end_at(referrer, e));
    let out = resolve_seq(raw, referrer).unwrap();
    if is_absolute_seq(raw) {
    } else if raw.len() >= 2 && raw[0] == 47 && raw[1] == 47 {
        let p = referrer.subrange(0, e + 1);
        assert(out == p + raw);
        assert forall|k: int| 0 <= k <= e implies out[k] == referrer[k] by {
            assert(out[k] == p[k]);
        }
        lemma_scheme_end_transfer(referrer, out, e);
    } else if raw.len() >= 1 && raw[0] == 47 {
        lemma_first_slash_range(referrer, e + 3);
        let ps = path_start_of(referrer);
        assert(e + 1 <= ps <= referrer.len());
        let p = referrer.subrange(0, ps);
        assert(out == p + raw);
        assert forall|k: int| 0 <= k <= e implies out[k] == referrer[k] by {
            assert(out[k] == p[k]);
        }
        lemma_scheme_end_transfer(referrer, out, e);
    } else {
        let root = path_start_of(referrer);
        let de = last_slash_upto(referrer, referrer.len() - 1);
        lemma_first_slash_range(referrer, e + 3);
        lemma_last_slash_upto_bounds(referrer, referrer.len() - 1);
        assert(e + 1 <= root);
        assert(root <= de && de < referrer.len());
        let d = referrer.subrange(0, de + 1);
        assert forall|k: int| 0 <= k <= e implies d[k] == referrer[k] by {}
        lemma_scheme_end_transfer(referrer, d, e);
        lemma_resolve_rel_scheme(d, root, raw, e);
    }
}

/// Resolution is deterministic (a function of its inputs alone) and an
/// already-absolute reference resolves to itself against any referrer.
pub proof fn lemma_resolve_absolute_identity(raw: Seq<u8>, referrer: Seq<u8>)
    requires
        is_absolute_seq(raw),
    ensures
        resolve_seq(raw, referrer) == Some(raw),
{
}

/// Resolution is idempotent: whatever resolution returns resolves to
/// itself against any referrer.
pub proof fn lemma_resolve_idempotent(raw: Seq<u8>, referrer: Seq<u8>, other: Seq<u8>)
    requires
        is_absolute_seq(referrer),
        resolve_seq(raw, referrer) is Some,
    ensures
        resolve_seq(resolve_seq(raw, referrer).unwrap(), other) == resolve_seq(raw, referrer),
{
    lemma_resolve_absolute(raw, referrer);
}

/// `first_slash_from` stays within `[k, s.len()]` while `k` is in range.
pub proof fn lemma_first_slash_range(s: Seq<u8>, k: int)
    requires
        0 <= k,
    ensures
        first_slash_from(s, k) <= s.len(),
        k <= s.len() ==> k <= first_slash_from(s, k),
    decreases s.len() - k,
{
    if k < s.len() && s[k] != 47 {
        lemma_first_slash_range(s, k + 1);
    }
}

/// `last_slash_upto` stays within `[-1, min(k, s.len() - 1)]`.
pub proof fn lemma_last_slash_upto_bounds(s: Seq<u8>, k: int)
    ensures
        -1 <= last_slash_upto(s, k),
        last_slash_upto(s, k) <= k || last_slash_upto(s, k) == -1,
        last_slash_upto(s, k) < s.len(),
    decreases k + 1,
{
    if !(k < 0 || k >= s.len()) && s[k] != 47 {
        lemma_last_slash_upto_bounds(s, k - 1);
    }
}

/// The first `/` at or after `from`, or the length when there is none.
pub fn find_first_slash(s: &Vec<u8>, from: usize) -> (r: usize)
    requires
        from <= s@.len(),
    ensures
        r as int == first_slash_from(s@, from as int),
        from <= r <= s@.len(),
{
    let mut i: usize = from;
    while i < s.len()
        invariant
            from <= i <= s@.len(),
            first_slash_from(s@, from as int) == first_slash_from(s@, i as int),
        decreases s@.len() - i,
    {
        if s[i] == 47 {
            return i;
        }
        i += 1;
    }
    i
}

/// The last `/` at an index `<= k`, if any.
pub fn find_last_slash(s: &Vec<u8>, k: usize) -> (r: Option<usize>)
    requires
        k < s@.len(),
    ensures
        match r {
            Some(j) => j as int == last_slash_upto(s@, k as int) && j <= k,
            None => last_slash_upto(s@, k as int) == -1,
        },
{
    let mut i: usize = k;
    loop
        invariant
            i <= k < s@.len(),
            last_slash_upto(s@, k as int) == last_slash_upto(s@, i as int),
        decreases i,
    {
        if s[i] == 47 {
            return Some(i);
        }
        if i == 0 {
            proof {
                assert(last_slash_upto(s@, -1) == -1);
                assert(last_slash_upto(s@, 0) == -1);
            }
            return None;
        }
        i -= 1;
    }
}

/// A fresh copy of `v[0..n]`.
pub fn take_prefix(v: &Vec<u8>, n: usize) -> (r: Vec<u8>)
    requires
        n <= v@.len(),
    ensures
        r@ == v@.subrange(0, n as int),
{
    let mut out: Vec<u8> = Vec::new();
    let mut i: usize = 0;
    while i < n
        invariant
            i <= n <= v@.len(),
            out@ == v@.subrange(0, i as int),
        decreases n - i,
    {
        out.push(v[i]);
        proof {
            assert(out@ =~= v@.subrange(0, i + 1 as int));
        }
        i += 1;
    }
    out
}

/// `out` with `src[from..]` appended.
pub fn append_from(out: Vec<u8>, src: &Vec<u8>, from: usize) -> (r: Vec<u8>)
    requires
        from <= src@.len(),
    ensures
        r@ == out@ + src@.skip(from as int),
{
    let ghost out0 = out@;
    let mut r = out;
    let mut i: usize = from;
    proof {
        assert(r@ =~= out0 + src@.subrange(from as int, from as int));
    }
    while i < src.len()
        invariant
            from <= i <= src@.len(),
            r@ == out0 + src@.subrange(from as int, i as int),
        decreases src@.len() - i,
    {
        r.push(src[i]);
        proof {
            assert(r@ =~= out0 + src@.subrange(from as int, i + 1 as int));
        }
        i += 1;
    }
    proof {
        assert(out0 + src@.subrange(from as int, src@.len() as int) =~= out0 + src@.skip(
            from as int,
        ));
    }
    r
}

/// The parent directory of `d`, in place.
fn parent_vec(d: Vec<u8>, root: usize) -> (r: Vec<u8>)
    requires
        d@.len() >= 1,
    ensures
        r@ == parent_dir(d@, root as int),
{
    let mut d = d;
    if d.len() < 2 {
        return d;
    }
    match find_last_slash(&d, d.len() - 2) {
        Some(j) => {
            if j < root {
                d
            } else {
                d.truncate(j + 1);
                d
            }
        },
        None => d,
    }
}

/// Where the path of `referrer` begins.
pub fn path_start(referrer: &ModuleSpecifier) -> (r: usize)
    requires
        referrer.wf(),
    ensures
        r as int == path_start_of(referrer@),
        scheme_end_of(referrer@) < r as int,
        r <= referrer@.len(),
{
    let rb = referrer.as_bytes();
    let e = referrer.scheme_end();
    if rb.len() - e > 2 && rb[e + 1] == 47 && rb[e + 2] == 47 {
        find_first_slash(rb, e + 3)
    } else {
        e + 1
    }
}

/// `out` with `src[from..to]` appended.
pub fn append_range(out: Vec<u8>, src: &Vec<u8>, from: usize, to: usize) -> (r: Vec<u8>)
    requires
        from <= to <= src@.len(),
    ensures
        r@ == out@ + src@.subrange(from as int, to as int),
{
    let ghost out0 = out@;
    let mut r = out;
    let mut i: usize = from;
    proof {
        assert(r@ =~= out0 + src@.subrange(from as int, from as int));
    }
    while i < to
        invariant
            from <= i <= to <= src@.len(),
            r@ == out0 + src@.subrange(from as int, i as int),
        decreases to - i,
    {
        r.push(src[i]);
        proof {
            assert(r@ =~= out0 + src@.subrange(from as int, i + 1 as int));
        }
        i += 1;
    }
    r
}

/// Consume the reference segment by segment, dropping `.` segments,
/// letting `..` segments strip the directory, and appending the rest.
fn resolve_rel_exec(d: Vec<u8>, root: usize, raw: &Vec<u8>) -> (r: Vec<u8>)
    requires
        1 <= d@.len(),
        root as int <= d@.len(),
    ensures
        r@ == resolve_rel(d@, root as int, raw@),
{
    let ghost target = resolve_rel(d@, root as int, raw@);
    let mut d = d;
    let mut pos: usize = 0;
    proof {
        assert(raw@.skip(0) =~= raw@);
    }
    loop
        invariant
            pos <= raw@.len(),
            1 <= d@.len(),
            root as int <= d@.len(),
            resolve_rel(d@, root as int, raw@.skip(pos as int)) == target,
        ensures
            pos <= raw@.len(),
            d@ + raw@.skip(pos as int) == target,
        decreases raw@.len() - pos,
    {
        let ghost tail = raw@.skip(pos as int);
        if pos < raw.len() && raw[pos] == 46 && pos + 1 < raw.len() && raw[pos + 1] == 47 {
            proof {
                assert(dot_prefix(tail));
                assert(tail.skip(2) =~= raw@.skip(pos + 2 as int));
            }
            pos += 2;
        } else if pos < raw.len() && raw[pos] == 46 && pos + 1 < raw.len() && raw[pos + 1] == 46
            && pos + 2 < raw.len() && raw[pos + 2] == 47 {
            proof {
                assert(dotdot_prefix(tail));
                assert(tail.skip(3) =~= raw@.skip(pos + 3 as int));
            }
            let ghost dold = d@;
            d = parent_vec(d, root);
            proof {
                lemma_last_slash_upto_bounds(dold, dold.len() - 2);
            }
            pos += 3;
        } else if pos < raw.len() && raw[pos] == 46 && pos + 1 == raw.len() {
            proof {
                assert(tail =~= seq![46u8]);
                assert(raw@.skip(raw@.len() as int) =~= Seq::<u8>::empty());
                assert(first_slash_from(Seq::<u8>::empty(), 0) == 0);
                assert(d@ + Seq::<u8>::empty() =~= d@);
            }
            pos += 1;
        } else if pos < raw.len() && raw[pos] == 46 && pos + 1 < raw.len() && raw[pos + 1] == 46
            && pos + 2 == raw.len() {
            proof {
                assert(tail =~= seq![46u8, 46u8]);
                assert(raw@.skip(raw@.len() as int) =~= Seq::<u8>::empty());
                assert(first_slash_from(Seq::<u8>::empty(), 0) == 0);
            }
            let ghost dold = d@;
            d = parent_vec(d, root);
            proof {
                lemma_last_slash_upto_bounds(dold, dold.len() - 2);
                assert(d@ + Seq::<u8>::empty() =~= d@);
            }
            pos += 2;
        } else {
            if pos >= raw.len() {
                proof {
                    assert(tail =~= Seq::<u8>::empty());
                    assert(first_slash_from(tail, 0) == 0);
                    assert(d@ + tail =~= d@);
                }
                break;
            }
            let sj = find_first_slash(raw, pos);
            proof {
                lemma_first_slash_shift(raw@, pos as int, 0);
                assert(first_slash_from(tail, 0) == sj - pos);
            }
            if sj >= raw.len() {
                break;
            }
            proof {
                assert(tail.subrange(0, sj - pos + 1 as int) =~= raw@.subrange(
                    pos as int,
                    sj + 1 as int,
                ));
                assert(tail.skip(sj - pos + 1 as int) =~= raw@.skip(sj + 1 as int));
            }
            d = append_range(d, raw, pos, sj + 1);
            pos = sj + 1;
        }
    }
    append_from(d, raw, pos)
}

/// Combine a raw import reference with its referrer into one absolute,
/// normalized identifier; an absolute reference is returned unchanged,
/// and a schemeless or malformed combination is rejected.
pub fn resolve(raw: &Vec<u8>, referrer: &ModuleSpecifier) -> (r: Result<
    ModuleSpecifier,
    LoadError,
>)
    requires
        referrer.wf(),
    ensures
        match r {
            Ok(m) => resolve_seq(raw@, referrer@) == Some(m@) && m.wf(),
            Err(e) => resolve_seq(raw@, referrer@) is None && e == LoadError::Resolution,
        },
{
    if let Some(_) = find_scheme_end(raw) {
        let out = copy_bytes(raw);
        return Ok(ModuleSpecifier::from_absolute(out));
    }
    let rb = referrer.as_bytes();
    let rl = rb.len();
    let e = referrer.scheme_end();
    proof {
        assert(1 <= e < rl);
    }
    if raw.len() >= 2 && raw[0] == 47 && raw[1] == 47 {
        let p = take_prefix(rb, e + 1);
        let out = append_from(p, raw, 0);
        proof {
            assert(raw@.skip(0) =~= raw@);
            lemma_resolve_absolute(raw@, referrer@);
        }
        return Ok(ModuleSpecifier::from_absolute(out));
    }
    if raw.len() >= 1 && raw[0] == 47 {
        let ps = path_start(referrer);
        let p = take_prefix(rb, ps);
        let out = append_from(p, raw, 0);
        proof {
            assert(raw@.skip(0) =~= raw@);
            lemma_resolve_absolute(raw@, referrer@);
        }
        return Ok(ModuleSpecifier::from_absolute(out));
    }
    let is_dot = raw.len() >= 2 && raw[0] == 46 && raw[1] == 47;
    let is_dotdot = raw.len() >= 3 && raw[0] == 46 && raw[1] == 46 && raw[2] == 47;
    if is_dot || is_dotdot {
        let root = path_start(referrer);
        match find_last_slash(rb, rb.len() - 1) {
            Some(de) => {
                if de < root {
                    Err(LoadError::Resolution)
                } else {
                    let d = take_prefix(rb, de + 1);
                    let out = resolve_rel_exec(d, root, raw);
                    proof {
                        lemma_resolve_absolute(raw@, referrer@);
                    }
                    Ok(ModuleSpecifier::from_absolute(out))
                }
            },
            None => Err(LoadError::Resolution),
        }
    } else {
        Err(LoadError::Resolution)
    }
}

} // verus!
