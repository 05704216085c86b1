//! ROM image assembly: feeds each source line through the instruction
//! encoder, in order, to build the fixed-size 128-byte image. Source line
//! `i` maps to image byte `i`; unused trailing bytes stay zero. The whole
//! run is all-or-nothing: the first malformed line aborts it, and a source
//! with more lines than the ROM has bytes is rejected outright.

use vstd::prelude::*;
use crate::encoder::{encode, spec_encode, IsaRevision};
use crate::ROM_BYTES;

verus! {

/// Why a source could not be assembled.
#[derive(Debug, PartialEq, Eq)]
pub enum AsmError {
    /// Line `index` (0-based) does not contain a valid instruction; `line`
    /// is its verbatim text.
    Malformed { index: usize, line: Vec<u8> },
    /// The source has more lines than the ROM has bytes.
    TooManyLines { count: usize },
}

/// The ROM image of a source whose every line encodes: byte `i` is line
/// `i`'s opcode, and every byte past the last line is zero.
pub open spec fn spec_image(lines: Seq<Seq<u8>>, rev: IsaRevision) -> Seq<u8> {
    Seq::new(
        ROM_BYTES as nat,
        |i: int|
            if i < lines.len() {
                spec_encode(lines[i], rev)->Some_0
            } else {
                0u8
            },
    )
}

/// Whether every line of the source encodes under the given revision.
pub open spec fn all_lines_encode(lines: Seq<Seq<u8>>, rev: IsaRevision) -> bool {
    forall|i: int| 0 <= i < lines.len() ==> (#[trigger] spec_encode(lines[i], rev)) is Some
}

/// Copies a byte slice into an owned vector.
fn copy_bytes(v: &[u8]) -> (r: Vec<u8>)
    ensures
        r@ == v@,
{
    let mut r: Vec<u8> = Vec::new();
    let mut i: usize = 0;
    while i < v.len()
        invariant
            i <= v.len(),
            r@ == v@.take(i as int),
        decreases v.len() - i,
    {
        let ghost old_r = r@;
        r.push(v[i]);
        proof {
            assert(old_r.push(v@[i as int]) =~= v@.take(i + 1));
        }
        i = i + 1;
    }
    proof {
        assert(r@ =~= v@);
    }
    r
}

/// Assembles a source, one instruction per line, into the 128-byte ROM
/// image. Fails on the first malformed line, reporting its 0-based index
/// and verbatim text, and rejects a source of more than 128 lines.
pub fn assemble(lines: &Vec<Vec<u8>>, rev: IsaRevision) -> (r: Result<Vec<u8>, AsmError>)
    ensures
        r is Ok <==> (lines@.len() <= ROM_BYTES && all_lines_encode(lines.deep_view(), rev)),
        r matches Ok(img) ==> img@ == spec_image(lines.deep_view(), rev),
        lines@.len() > ROM_BYTES ==> (r matches Err(AsmError::TooManyLines { count })
            && count == lines@.len()),
        r matches Err(AsmError::Malformed { index, line }) ==> {
            &&& index < lines@.len()
            &&& spec_encode(lines.deep_view()[index as int], rev) is None
            &&& line@ == lines.deep_view()[index as int]
            &&& forall|j: int|
                0 <= j < index ==> (#[trigger] spec_encode(lines.deep_view()[j], rev)) is Some
        },
{
    proof {
        assert(forall|k: int|
            0 <= k < lines@.len() ==> #[trigger] lines.deep_view()[k] =~= lines@[k]@);
    }
    if lines.len() > ROM_BYTES {
        return Err(AsmError::TooManyLines { count: lines.len() });
    }
    let ghost ldv = lines.deep_view();
    let mut img: Vec<u8> = Vec::new();
    let mut i: usize = 0;
    while i < lines.len()
        invariant
            i <= lines.len() <= ROM_BYTES,
            ldv == lines.deep_view(),
            img@.len() == i,
            forall|j: int|
                0 <= j < i ==> (#[trigger] spec_encode(ldv[j], rev)) is Some && img@[j]
                    == spec_encode(ldv[j], rev)->Some_0,
        decreases lines.len() - i,
    {
        proof {
            assert(ldv[i as int] =~= lines@[i as int]@);
        }
        match encode(lines[i].as_slice(), rev) {
            Some(v) => {
                img.push(v);
            },
            None => {
                return Err(AsmError::Malformed { index: i, line: copy_bytes(lines[i].as_slice()) });
            },
        }
        i = i + 1;
    }
    while img.len() < ROM_BYTES
        invariant
            lines@.len() <= img@.len() <= ROM_BYTES,
            ldv == lines.deep_view(),
            forall|j: int|
                0 <= j < lines@.len() ==> (#[trigger] spec_encode(ldv[j], rev)) is Some && img@[j]
                    == spec_encode(ldv[j], rev)->Some_0,
            forall|j: int| lines@.len() <= j < img@.len() ==> img@[j] == 0u8,
        decreases ROM_BYTES - img.len(),
    {
        img.push(0u8);
    }
    proof {
        assert(img@ =~= spec_image(ldv, rev));
    }
    Ok(img)
}

} // verus!
