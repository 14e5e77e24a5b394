//! A type that generated code depends on, named by its package and type name.

use vstd::prelude::*;
use vstd::string::StringSliceAdditionalSpecFns;
use vstd::utf8::{
    encode_utf8, encode_utf8_valid_utf8, is_char_boundary, is_char_boundary_iff_not_is_continuation_byte,
    length_of_first_scalar, pop_first_scalar, valid_utf8, valid_utf8_split,
};

verus! {

/// Where a type lives: the crate path it is reached through (`base`), its
/// package (`path`), and its name.
#[derive(Debug, Clone, PartialEq, Eq, PartialOrd, Ord, Hash)]
pub struct DependencyInfo {
    pub base: String,
    pub path: String,
    pub typename: String,
}

/// `d` is the position of the last `.` in `b`.
pub open spec fn last_dot(b: Seq<u8>, d: int) -> bool {
    0 <= d < b.len() && b[d] == 46 && forall|m: int| d < m < b.len() ==> b[m] != 46
}

/// In valid UTF-8, the byte after a one-byte character starts a character.
pub proof fn lemma_ascii_boundary(bytes: Seq<u8>, idx: int)
    requires
        valid_utf8(bytes),
        0 <= idx < bytes.len(),
        is_char_boundary(bytes, idx),
        bytes[idx] < 128,
    ensures
        is_char_boundary(bytes, idx + 1),
    decreases bytes.len(),
{
    let l = length_of_first_scalar(bytes);
    let pop = pop_first_scalar(bytes);
    if idx == 0 {
        assert(l == 1);
        reveal_with_fuel(is_char_boundary, 2);
    } else {
        assert(is_char_boundary(bytes, idx) == is_char_boundary(pop, idx - l));
        assert(idx - l >= 0);
        assert(pop[idx - l] == bytes[idx]);
        lemma_ascii_boundary(pop, idx - l);
        assert(is_char_boundary(bytes, idx + 1) == is_char_boundary(pop, idx + 1 - l));
    }
}

impl DependencyInfo {
    /// The same dependency, reached through another base path.
    pub fn rebase(self, base: String) -> (r: DependencyInfo)
        ensures
            r.base == base,
            r.path == self.path,
            r.typename == self.typename,
    {
        let mut r = self;
        r.base = base;
        r
    }

    /// Rebases when a base is given, and keeps the dependency as it is
    /// otherwise.
    pub fn try_rebase(self, base: Option<String>) -> (r: DependencyInfo)
        ensures
            r.base == match base {
                Some(b) => b,
                None => self.base,
            },
            r.path == self.path,
            r.typename == self.typename,
    {
        match base {
            Some(b) => self.rebase(b),
            None => self,
        }
    }

    /// Splits a dotted name at its last `.`: the part after it becomes the
    /// package path and the part before it the type name, under the base
    /// `crate`.
    pub fn from_path(path: &str) -> (r: DependencyInfo)
        requires
            exists|d: int| last_dot(encode_utf8(path@), d),
        ensures
            r.base@ == seq!['c', 'r', 'a', 't', 'e'],
            exists|d: int| #[trigger] last_dot(encode_utf8(path@), d)
                && encode_utf8(r.typename@) == encode_utf8(path@).subrange(0, d)
                && encode_utf8(r.path@) == encode_utf8(path@).subrange(d + 1, encode_utf8(path@).len() as int),
    {
        let bytes = path.as_bytes();
        let ghost b = bytes@;
        let mut i: usize = bytes.len();
        while i > 0 && bytes[i - 1] != 46
            invariant
                i <= b.len(),
                b == bytes@,
                forall|m: int| i <= m < b.len() ==> b[m] != 46,
            decreases i,
        {
            i = i - 1;
        }
        proof {
            let d0 = choose|d: int| last_dot(b, d);
            if i == 0 {
                assert(b[d0] == 46);
            }
        }
        let d = i - 1;
        proof {
            encode_utf8_valid_utf8(path@);
            is_char_boundary_iff_not_is_continuation_byte(b, d as int);
            lemma_ascii_boundary(b, d as int);
        }
        let (head_dot, name) = path.split_at(d + 1);
        proof {
            let hb = head_dot.spec_bytes();
            valid_utf8_split(b, d + 1);
            is_char_boundary_iff_not_is_continuation_byte(hb, d as int);
        }
        let (head, _) = head_dot.split_at(d);
        let r = DependencyInfo { base: "crate".to_owned(), path: name.to_owned(), typename: head.to_owned() };
        proof {
            reveal_strlit("crate");
            assert(r.typename@ == head@);
            assert(encode_utf8(r.typename@) =~= b.subrange(0, d as int));
            assert(encode_utf8(r.path@) =~= b.subrange(d + 1, b.len() as int));
            assert(last_dot(b, d as int));
        }
        r
    }
}

} // verus!
