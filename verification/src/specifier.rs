use vstd::prelude::*;
use crate::errors::LoadError;

verus! {

// Byte values the grammar speaks of: ':' is 58, '/' is 47, '.' is 46,
// '+' is 43, '-' is 45.

/// An ASCII letter.
pub open spec fn is_alpha_byte(c: u8) -> bool {
    (97 <= c && c <= 122) || (65 <= c && c <= 90)
}

/// An ASCII digit.
pub open spec fn is_digit_byte(c: u8) -> bool {
    48 <= c && c <= 57
}

/// A byte that may stand in a scheme after its first letter.
pub open spec fn is_scheme_byte(c: u8) -> bool {
    is_alpha_byte(c) || is_digit_byte(c) || c == 43 || c == 45 || c == 46
}

/// The scheme of `s` ends at `i`: `s[i]` is the `:` that closes a
/// non-empty scheme made of a letter followed by scheme bytes.
pub open spec fn scheme_end_at(s: Seq<u8>, i: int) -> bool {
    &&& 1 <= i < s.len()
    &&& s[i] == 58
    &&& is_alpha_byte(s[0])
    &&& forall|j: int| 1 <= j < i ==> is_scheme_byte(#[trigger] s[j])
}

/// `s` is an absolute, scheme-qualified identifier.
pub open spec fn is_absolute_seq(s: Seq<u8>) -> bool {
    exists|i: int| scheme_end_at(s, i)
}

/// The index of the `:` closing the scheme (meaningful only when
/// `is_absolute_seq(s)`).
pub open spec fn scheme_end_of(s: Seq<u8>) -> int {
    choose|i: int| scheme_end_at(s, i)
}

/// A scheme ends at one index at most: a `:` is not a scheme byte, so
/// two candidate ends would each have to precede the other.
pub proof fn lemma_scheme_end_unique(s: Seq<u8>, i: int, j: int)
    requires
        scheme_end_at(s, i),
        scheme_end_at(s, j),
    ensures
        i == j,
{
    if i < j {
        assert(is_scheme_byte(s[i]));
    }
    if j < i {
        assert(is_scheme_byte(s[j]));
    }
}

pub fn alpha_byte(c: u8) -> (r: bool)
    ensures
        r == is_alpha_byte(c),
{
    (97 <= c && c <= 122) || (65 <= c && c <= 90)
}

pub fn scheme_byte(c: u8) -> (r: bool)
    ensures
        r == is_scheme_byte(c),
{
    alpha_byte(c) || (48 <= c && c <= 57) || c == 43 || c == 45 || c == 46
}

/// Scan for the `:` that closes the scheme; `None` means `s` is not
/// absolute.
pub fn find_scheme_end(s: &Vec<u8>) -> (r: Option<usize>)
    ensures
        match r {
            Some(i) => scheme_end_at(s@, i as int),
            None => !is_absolute_seq(s@),
        },
{
    if s.len() == 0 || !alpha_byte(s[0]) {
        return None;
    }
    let mut i: usize = 1;
    while i < s.len()
        invariant
            1 <= i <= s@.len(),
            is_alpha_byte(s@[0]),
            forall|j: int| 1 <= j < i ==> is_scheme_byte(#[trigger] s@[j]),
            forall|j: int| 1 <= j < i ==> s@[j] != 58,
        decreases s@.len() - i,
    {
        let c = s[i];
        if c == 58 {
            return Some(i);
        }
        if !scheme_byte(c) {
            proof {
                assert forall|k: int| !scheme_end_at(s@, k) by {
                    if 1 <= k < i {
                        assert(s@[k] != 58);
                    } else if k > i && k < s@.len() && s@[k] == 58 {
                        assert(!is_scheme_byte(s@[i as int]));
                    }
                }
            }
            return None;
        }
        i += 1;
    }
    proof {
        assert forall|k: int| !scheme_end_at(s@, k) by {
            if 1 <= k < s@.len() {
                assert(s@[k] != 58);
            }
        }
    }
    None
}

/// An absolute, scheme-qualified, normalized module identifier.
#[derive(Debug)]
pub struct ModuleSpecifier {
    bytes: Vec<u8>,
}

impl View for ModuleSpecifier {
    type V = Seq<u8>;

    closed spec fn view(&self) -> Seq<u8> {
        self.bytes@
    }
}

impl ModuleSpecifier {
    /// Every value of this type holds an absolute identifier.
    pub open spec fn wf(&self) -> bool {
        is_absolute_seq(self@)
    }

    /// Accept `bytes` as a specifier only if it is absolute.
    pub fn from_bytes(bytes: Vec<u8>) -> (r: Result<ModuleSpecifier, LoadError>)
        ensures
            match r {
                Ok(m) => m@ == bytes@ && m.wf(),
                Err(e) => !is_absolute_seq(bytes@) && e == LoadError::Resolution,
            },
    {
        match find_scheme_end(&bytes) {
            Some(_) => Ok(ModuleSpecifier { bytes }),
            None => Err(LoadError::Resolution),
        }
    }

    /// Wrap bytes already known to be absolute.
    pub fn from_absolute(bytes: Vec<u8>) -> (r: ModuleSpecifier)
        requires
            is_absolute_seq(bytes@),
        ensures
            r@ == bytes@ && r.wf(),
    {
        ModuleSpecifier { bytes }
    }

    pub fn as_bytes(&self) -> (r: &Vec<u8>)
        ensures
            r@ == self@,
    {
        &self.bytes
    }

    /// A fresh copy of the identifier's bytes.
    pub fn to_bytes(&self) -> (r: Vec<u8>)
        ensures
            r@ == self@,
    {
        copy_bytes(&self.bytes)
    }

    /// The index of the `:` closing the scheme.
    pub fn scheme_end(&self) -> (r: usize)
        requires
            self.wf(),
        ensures
            scheme_end_at(self@, r as int),
            r as int == scheme_end_of(self@),
    {
        match find_scheme_end(&self.bytes) {
            Some(i) => {
                proof {
                    lemma_scheme_end_unique(self@, i as int, scheme_end_of(self@));
                }
                i
            },
            None => {
                proof {
                    assert(false);
                }
                vstd::pervasive::unreached()
            },
        }
    }
}

/// Byte-for-byte copy.
pub fn copy_bytes(v: &Vec<u8>) -> (r: Vec<u8>)
    ensures
        r@ == v@,
{
    let mut out: Vec<u8> = Vec::new();
    let mut i: usize = 0;
    while i < v.len()
        invariant
            0 <= i <= v@.len(),
            out@ == v@.subrange(0, i as int),
        decreases v@.len() - i,
    {
        out.push(v[i]);
        proof {
            assert(out@ =~= v@.subrange(0, i + 1 as int));
        }
        i += 1;
    }
    proof {
        assert(out@ =~= v@);
    }
    out
}

} // verus!
