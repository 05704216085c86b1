//! Instruction encoder: a table-driven translator from textual
//! mnemonic+operand lines (given as bytes) to single-byte opcodes.
//!
//! A line is first stripped of a trailing `//` comment, then split on ASCII
//! whitespace into tokens, and the token sequence is matched against a fixed
//! table of instruction shapes. Every opcode byte is the bitwise OR of a
//! family tag in the high bits with operand fields in disjoint low bits, so
//! the combination never loses information.
//!
//! Two non-identical opcode tables exist for the same mnemonics (two ISA
//! revisions); the caller selects one explicitly through [`IsaRevision`].

use vstd::prelude::*;

verus! {

/// One self-consistent assignment of mnemonics/operands to opcode bit
/// patterns. The two revisions differ in the ordering of the arithmetic
/// family (`add`/`sub` and `adc`/`sbc` swap tags) and in the bit assignment
/// of `inc`/`dec`; everything else is identical.
#[derive(Clone, Copy, Debug, PartialEq, Eq, Structural)]
pub enum IsaRevision {
    /// Revision 1: `add` carries arithmetic tag 0, `sub` tag 4.
    V1,
    /// Revision 2: `sub` carries arithmetic tag 0, `add` tag 4.
    V2,
}

// ---------------------------------------------------------------------------
// Field encoders: partial functions from operand token text to bit patterns.
// ---------------------------------------------------------------------------

/// A general-purpose register token: exactly `r0`..`r3`.
pub open spec fn is_gp_reg(s: Seq<u8>) -> bool {
    s.len() == 2 && s[0] == 'r' as u8 && '0' as u8 <= s[1] && s[1] <= '3' as u8
}

/// The 2-bit index of a general-purpose register token (`r0` -> 0 ... `r3` -> 3).
pub open spec fn gp_reg_index(s: Seq<u8>) -> u8
    recommends
        is_gp_reg(s),
{
    (s[1] - ('0' as u8)) as u8
}

/// Source-register field: the 2-bit register index placed at bit offset 3.
pub open spec fn spec_src_to_bits(s: Seq<u8>) -> Option<u8> {
    if is_gp_reg(s) {
        Some((gp_reg_index(s) * 8) as u8)
    } else {
        None
    }
}

/// Encodes a source-register operand token (`r0`..`r3`) as its field bits.
pub fn src_to_bits(reg: &[u8]) -> (r: Option<u8>)
    ensures
        r == spec_src_to_bits(reg@),
{
    if reg.len() == 2 && reg[0] == 'r' as u8 && '0' as u8 <= reg[1] && reg[1] <= '3' as u8 {
        Some((reg[1] - ('0' as u8)) * 8)
    } else {
        None
    }
}

/// A token of exactly two given bytes.
pub open spec fn tok2(s: Seq<u8>, a: u8, b: u8) -> bool {
    s.len() == 2 && s[0] == a && s[1] == b
}

/// A token of exactly three given bytes.
pub open spec fn tok3(s: Seq<u8>, a: u8, b: u8, c: u8) -> bool {
    s.len() == 3 && s[0] == a && s[1] == b && s[2] == c
}

/// A token of exactly four given bytes.
pub open spec fn tok4(s: Seq<u8>, a: u8, b: u8, c: u8, d: u8) -> bool {
    s.len() == 4 && s[0] == a && s[1] == b && s[2] == c && s[3] == d
}

/// Extended/special-register field: `r0`..`r3` encode as a source-register
/// field; the named special registers `pc`, `adr`, `sp`, `sr` get the
/// low-order tag bit set and a 2-bit index among the specials at offset 3.
pub open spec fn spec_special_to_bits(s: Seq<u8>) -> Option<u8> {
    if is_gp_reg(s) {
        Some((gp_reg_index(s) * 8) as u8)
    } else if tok2(s, 'p' as u8, 'c' as u8) {
        Some(0b000_00_001u8)
    } else if tok3(s, 'a' as u8, 'd' as u8, 'r' as u8) {
        Some(0b000_01_001u8)
    } else if tok2(s, 's' as u8, 'p' as u8) {
        Some(0b000_10_001u8)
    } else if tok2(s, 's' as u8, 'r' as u8) {
        Some(0b000_11_001u8)
    } else {
        None
    }
}

/// Encodes an extended/special-register operand token.
pub fn special_to_bits(reg: &[u8]) -> (r: Option<u8>)
    ensures
        r == spec_special_to_bits(reg@),
{
    if reg.len() == 2 && reg[0] == 'r' as u8 && '0' as u8 <= reg[1] && reg[1] <= '3' as u8 {
        Some((reg[1] - ('0' as u8)) * 8)
    } else if reg.len() == 2 && reg[0] == 'p' as u8 && reg[1] == 'c' as u8 {
        Some(0b000_00_001u8)
    } else if reg.len() == 3 && reg[0] == 'a' as u8 && reg[1] == 'd' as u8 && reg[2] == 'r' as u8 {
        Some(0b000_01_001u8)
    } else if reg.len() == 2 && reg[0] == 's' as u8 && reg[1] == 'p' as u8 {
        Some(0b000_10_001u8)
    } else if reg.len() == 2 && reg[0] == 's' as u8 && reg[1] == 'r' as u8 {
        Some(0b000_11_001u8)
    } else {
        None
    }
}

/// Small-immediate field: the literals `1`..`4`, encoded as (value - 1) in a
/// 2-bit index at bit offset 3.
pub open spec fn spec_half_imm_to_bits(s: Seq<u8>) -> Option<u8> {
    if s.len() == 1 && '1' as u8 <= s[0] && s[0] <= '4' as u8 {
        Some(((s[0] - ('1' as u8)) * 8) as u8)
    } else {
        None
    }
}

/// Encodes a small-immediate operand token (`1`..`4`).
pub fn half_imm_to_bits(reg: &[u8]) -> (r: Option<u8>)
    ensures
        r == spec_half_imm_to_bits(reg@),
{
    if reg.len() == 1 && '1' as u8 <= reg[0] && reg[0] <= '4' as u8 {
        Some((reg[0] - ('1' as u8)) * 8)
    } else {
        None
    }
}

/// A decimal 4-bit immediate token: `0`..`9` or `10`..`15`.
pub open spec fn is_dec_imm(s: Seq<u8>) -> bool {
    (s.len() == 1 && '0' as u8 <= s[0] && s[0] <= '9' as u8) || (s.len() == 2 && s[0] == '1' as u8
        && '0' as u8 <= s[1] && s[1] <= '5' as u8)
}

/// The value of a decimal 4-bit immediate token.
pub open spec fn dec_imm_val(s: Seq<u8>) -> u8
    recommends
        is_dec_imm(s),
{
    if s.len() == 1 {
        (s[0] - ('0' as u8)) as u8
    } else {
        (10 + (s[1] - ('0' as u8))) as u8
    }
}

/// A binary-literal alias for a 4-bit immediate: `0b` followed by exactly
/// four `0`/`1` digits.
pub open spec fn is_bin_imm(s: Seq<u8>) -> bool {
    s.len() == 6 && s[0] == '0' as u8 && s[1] == 'b' as u8 && is_bits(s.subrange(2, 6))
}

/// A sequence made only of the bytes `0` and `1`.
pub open spec fn is_bits(s: Seq<u8>) -> bool {
    forall|i: int| 0 <= i < s.len() ==> s[i] == '0' as u8 || s[i] == '1' as u8
}

/// The value of a 4-digit binary string, most-significant bit first.
pub open spec fn bits4_val(s: Seq<u8>) -> u8
    recommends
        s.len() == 4 && is_bits(s),
{
    (8 * (s[0] - ('0' as u8)) + 4 * (s[1] - ('0' as u8)) + 2 * (s[2] - ('0' as u8)) + (s[3] - (
    '0' as u8))) as u8
}

/// 4-bit-immediate field: decimal `0`..`15`, or the binary alias `0bxxxx`;
/// the value sits directly in the low nibble.
pub open spec fn spec_imm_to_bits(s: Seq<u8>) -> Option<u8> {
    if is_dec_imm(s) {
        Some(dec_imm_val(s))
    } else if is_bin_imm(s) {
        Some(bits4_val(s.subrange(2, 6)))
    } else {
        None
    }
}

/// Encodes a 4-bit-immediate operand token (`0`..`15` or `0b0000`..`0b1111`).
pub fn imm_to_bits(reg: &[u8]) -> (r: Option<u8>)
    ensures
        r == spec_imm_to_bits(reg@),
{
    if reg.len() == 1 && '0' as u8 <= reg[0] && reg[0] <= '9' as u8 {
        Some(reg[0] - ('0' as u8))
    } else if reg.len() == 2 && reg[0] == '1' as u8 && '0' as u8 <= reg[1] && reg[1] <= '5' as u8 {
        Some(10 + (reg[1] - ('0' as u8)))
    } else if reg.len() == 6 && reg[0] == '0' as u8 && reg[1] == 'b' as u8 && is_bit_byte(reg[2])
        && is_bit_byte(reg[3]) && is_bit_byte(reg[4]) && is_bit_byte(reg[5]) {
        proof {
            assert(is_bits(reg@.subrange(2, 6))) by {
                assert(forall|i: int|
                    0 <= i < 4 ==> reg@.subrange(2, 6)[i] == reg@[i + 2]);
            }
            assert(reg@.subrange(2, 6)[0] == reg@[2]);
            assert(reg@.subrange(2, 6)[1] == reg@[3]);
            assert(reg@.subrange(2, 6)[2] == reg@[4]);
            assert(reg@.subrange(2, 6)[3] == reg@[5]);
        }
        Some(
            8 * (reg[2] - ('0' as u8)) + 4 * (reg[3] - ('0' as u8)) + 2 * (reg[4] - ('0' as u8)) + (
            reg[5] - ('0' as u8)),
        )
    } else {
        proof {
            if is_bin_imm(reg@) {
                assert(reg@.subrange(2, 6)[0] == reg@[2]);
                assert(reg@.subrange(2, 6)[1] == reg@[3]);
                assert(reg@.subrange(2, 6)[2] == reg@[4]);
                assert(reg@.subrange(2, 6)[3] == reg@[5]);
            }
        }
        None
    }
}

/// Whether a byte is the character `0` or `1`.
fn is_bit_byte(b: u8) -> (r: bool)
    ensures
        r == (b == '0' as u8 || b == '1' as u8),
{
    b == '0' as u8 || b == '1' as u8
}

/// Status-pattern field: exactly four `0`/`1` characters, read as a 4-bit
/// value most-significant bit first, placed in the low nibble.
pub open spec fn spec_status_to_bits(s: Seq<u8>) -> Option<u8> {
    if s.len() == 4 && is_bits(s) {
        Some(bits4_val(s))
    } else {
        None
    }
}

/// Encodes a status-pattern operand token (for example `1011`).
pub fn status_to_bits(reg: &[u8]) -> (r: Option<u8>)
    ensures
        r == spec_status_to_bits(reg@),
{
    if reg.len() == 4 && is_bit_byte(reg[0]) && is_bit_byte(reg[1]) && is_bit_byte(reg[2])
        && is_bit_byte(reg[3]) {
        Some(
            8 * (reg[0] - ('0' as u8)) + 4 * (reg[1] - ('0' as u8)) + 2 * (reg[2] - ('0' as u8)) + (
            reg[3] - ('0' as u8)),
        )
    } else {
        None
    }
}

/// Destination-register field: the 2-bit register index placed at bit
/// offset 1, distinct from the source-register field's offset.
pub open spec fn spec_dst_to_bits(s: Seq<u8>) -> Option<u8> {
    if is_gp_reg(s) {
        Some((gp_reg_index(s) * 2) as u8)
    } else {
        None
    }
}

/// Encodes a destination-register operand token (`r0`..`r3`).
pub fn dst_to_bits(reg: &[u8]) -> (r: Option<u8>)
    ensures
        r == spec_dst_to_bits(reg@),
{
    if reg.len() == 2 && reg[0] == 'r' as u8 && '0' as u8 <= reg[1] && reg[1] <= '3' as u8 {
        Some((reg[1] - ('0' as u8)) * 2)
    } else {
        None
    }
}

// ---------------------------------------------------------------------------
// Line pre-processing: comment stripping and whitespace tokenization.
// ---------------------------------------------------------------------------

/// Whether a byte is ASCII whitespace (space, tab, line feed, vertical tab,
/// form feed, or carriage return).
pub open spec fn is_ws(b: u8) -> bool {
    b == 32 || b == 9 || b == 10 || b == 11 || b == 12 || b == 13
}

/// The sequence holding a pending token: empty if no token is pending.
pub open spec fn flush_token(cur: Seq<u8>) -> Seq<Seq<u8>> {
    if cur.len() == 0 {
        Seq::empty()
    } else {
        seq![cur]
    }
}

/// The tokens of `s`, given a partial token `cur` already read: whitespace
/// ends the pending token, any other byte extends it.
pub open spec fn tokens_from(s: Seq<u8>, cur: Seq<u8>) -> Seq<Seq<u8>>
    decreases s.len(),
{
    if s.len() == 0 {
        flush_token(cur)
    } else if is_ws(s[0]) {
        flush_token(cur) + tokens_from(s.drop_first(), Seq::empty())
    } else {
        tokens_from(s.drop_first(), cur.push(s[0]))
    }
}

/// The ordered list of whitespace-delimited substrings of `s`. An empty or
/// all-whitespace sequence has no tokens.
pub open spec fn spec_tokens(s: Seq<u8>) -> Seq<Seq<u8>> {
    tokens_from(s, Seq::empty())
}

/// Splits a line into its whitespace-delimited tokens.
pub fn tokenize(line: &[u8]) -> (r: Vec<Vec<u8>>)
    ensures
        r.deep_view() == spec_tokens(line@),
{
    let ghost full = spec_tokens(line@);
    let mut toks: Vec<Vec<u8>> = Vec::new();
    let mut cur: Vec<u8> = Vec::new();
    let mut i: usize = 0;
    proof {
        assert(line@.skip(0) =~= line@);
        assert(toks.deep_view() + tokens_from(line@.skip(0), cur@) =~~= full);
    }
    while i < line.len()
        invariant
            i <= line.len(),
            toks.deep_view() + tokens_from(line@.skip(i as int), cur@) == full,
        decreases line.len() - i,
    {
        let b = line[i];
        proof {
            assert(line@.skip(i as int)[0] == b);
            assert(line@.skip(i as int).drop_first() =~= line@.skip(i + 1));
        }
        if b == 32 || b == 9 || b == 10 || b == 11 || b == 12 || b == 13 {
            if cur.len() > 0 {
                let ghost old_toks = toks.deep_view();
                let ghost old_cur = cur@;
                toks.push(cur);
                cur = Vec::new();
                proof {
                    assert(toks.deep_view() =~~= old_toks.push(old_cur));
                    assert(toks.deep_view() + tokens_from(line@.skip(i + 1), cur@) =~~= old_toks + (
                    flush_token(old_cur) + tokens_from(line@.skip(i + 1), Seq::empty())));
                }
            } else {
                proof {
                    assert(cur@ =~= Seq::<u8>::empty());
                    assert(flush_token(cur@) + tokens_from(line@.skip(i + 1), Seq::empty())
                        =~~= tokens_from(line@.skip(i + 1), cur@));
                }
            }
        } else {
            cur.push(b);
        }
        i = i + 1;
    }
    proof {
        assert(line@.skip(line.len() as int) =~= Seq::<u8>::empty());
    }
    if cur.len() > 0 {
        let ghost old_toks = toks.deep_view();
        let ghost old_cur = cur@;
        toks.push(cur);
        proof {
            assert(toks.deep_view() =~~= old_toks + flush_token(old_cur));
        }
    } else {
        proof {
            assert(toks.deep_view() + flush_token(cur@) =~~= toks.deep_view());
        }
    }
    toks
}

/// The index of the first occurrence of the two-byte comment marker `//`
/// in `s`, or `s.len()` if there is none.
pub open spec fn comment_start(s: Seq<u8>) -> int
    decreases s.len(),
{
    if s.len() < 2 {
        s.len() as int
    } else if s[0] == '/' as u8 && s[1] == '/' as u8 {
        0
    } else {
        1 + comment_start(s.drop_first())
    }
}

/// The comment marker's position is a position in `s`, at most one past the
/// last byte that could start a two-byte marker.
pub proof fn lemma_comment_start_bounds(s: Seq<u8>)
    ensures
        0 <= comment_start(s) <= s.len(),
    decreases s.len(),
{
    if s.len() >= 2 && !(s[0] == '/' as u8 && s[1] == '/' as u8) {
        lemma_comment_start_bounds(s.drop_first());
    }
}

/// The prefix of `s` before its first `//` comment marker; all of `s` if
/// there is none.
pub open spec fn spec_strip_comment(s: Seq<u8>) -> Seq<u8> {
    s.take(comment_start(s))
}

/// Removes the first `//` comment marker and everything after it.
pub fn strip_comment(line: &[u8]) -> (r: Vec<u8>)
    ensures
        r@ == spec_strip_comment(line@),
{
    let ghost cs = comment_start(line@);
    proof {
        lemma_comment_start_bounds(line@);
    }
    let mut end: usize = line.len();
    let mut i: usize = 0;
    let mut found = false;
    proof {
        assert(line@.skip(0) =~= line@);
    }
    while i < line.len() && !found
        invariant
            i <= line.len(),
            found ==> cs == end && end <= line.len(),
            !found ==> end == line.len() && cs == i + comment_start(line@.skip(i as int)),
        decreases line.len() - i, (if found { 0int } else { 1int }),
    {
        proof {
            assert(line@.skip(i as int)[0] == line@[i as int]);
            assert(line@.skip(i as int).drop_first() =~= line@.skip(i + 1));
        }
        if i + 1 < line.len() && line[i] == '/' as u8 && line[i + 1] == '/' as u8 {
            proof {
                assert(line@.skip(i as int)[1] == line@[i + 1]);
            }
            end = i;
            found = true;
        } else {
            proof {
                if i + 1 < line.len() {
                    assert(line@.skip(i as int)[1] == line@[i + 1]);
                } else {
                    assert(line@.skip(i as int).len() == 1);
                    assert(line@.skip(i + 1).len() == 0);
                }
            }
            i = i + 1;
        }
    }
    proof {
        if !found {
            assert(line@.skip(i as int).len() == 0);
            assert(cs == line@.len());
        }
    }
    let mut r: Vec<u8> = Vec::new();
    let mut j: usize = 0;
    while j < end
        invariant
            j <= end <= line.len(),
            r@ == line@.take(j as int),
        decreases end - j,
    {
        let ghost old_r = r@;
        r.push(line[j]);
        proof {
            assert(old_r.push(line@[j as int]) =~= line@.take(j + 1));
        }
        j = j + 1;
    }
    proof {
        assert(r@ =~= spec_strip_comment(line@));
    }
    r
}

// ---------------------------------------------------------------------------
// The opcode table: token sequences to opcode bytes.
// ---------------------------------------------------------------------------

/// ORs a family tag into an operand field, passing an operand failure through.
pub open spec fn spec_or_field(tag: u8, f: Option<u8>) -> Option<u8> {
    match f {
        Some(b) => Some(tag | b),
        None => None,
    }
}

fn or_field(tag: u8, f: Option<u8>) -> (r: Option<u8>)
    ensures
        r == spec_or_field(tag, f),
{
    match f {
        Some(b) => Some(tag | b),
        None => None,
    }
}

/// The opcode of a zero-operand instruction: the unary logic ops and the
/// branch family, whose mnemonic alone selects a condition code. The bit
/// assignment of `inc`/`dec` depends on the ISA revision.
pub open spec fn spec_opcode0(m: Seq<u8>, rev: IsaRevision) -> Option<u8> {
    if tok3(m, 'n' as u8, 'e' as u8, 'g' as u8) {
        Some(0b001_00_111u8)
    } else if tok3(m, 'n' as u8, 'o' as u8, 't' as u8) {
        Some(0b001_01_111u8)
    } else if tok3(m, 'i' as u8, 'n' as u8, 'c' as u8) {
        Some(if rev == IsaRevision::V1 { 0b001_11_111u8 } else { 0b001_10_111u8 })
    } else if tok3(m, 'd' as u8, 'e' as u8, 'c' as u8) {
        Some(if rev == IsaRevision::V1 { 0b001_10_111u8 } else { 0b001_11_111u8 })
    } else if tok4(m, 'b' as u8, 'r' as u8, 'v' as u8, 's' as u8) {
        Some(0b110_00_000u8)
    } else if tok3(m, 'j' as u8, 'm' as u8, 'p' as u8) {
        Some(0b110_00_001u8)
    } else if tok4(m, 'b' as u8, 'r' as u8, 'c' as u8, 's' as u8) {
        Some(0b110_00_010u8)
    } else if tok4(m, 'b' as u8, 'r' as u8, 'c' as u8, 'c' as u8) {
        Some(0b110_00_011u8)
    } else if tok4(m, 'b' as u8, 'r' as u8, 'e' as u8, 'q' as u8) {
        Some(0b110_00_100u8)
    } else if tok4(m, 'b' as u8, 'r' as u8, 'n' as u8, 'e' as u8) {
        Some(0b110_00_101u8)
    } else if tok4(m, 'b' as u8, 'r' as u8, 'n' as u8, 's' as u8) {
        Some(0b110_00_110u8)
    } else if tok4(m, 'b' as u8, 'r' as u8, 'n' as u8, 'c' as u8) {
        Some(0b110_00_111u8)
    } else {
        None
    }
}

/// The low 3-bit tag of an arithmetic-family mnemonic. The two ISA revisions
/// order the family differently: revision 1 assigns `add` tag 0 and `sub`
/// tag 4, revision 2 the reverse; `cmp`, `cpc`, `mul`, `div` agree.
pub open spec fn spec_arith_tag(m: Seq<u8>, rev: IsaRevision) -> Option<u8> {
    if tok3(m, 's' as u8, 'u' as u8, 'b' as u8) {
        Some(if rev == IsaRevision::V1 { 0b000_00_100u8 } else { 0b000_00_000u8 })
    } else if tok3(m, 's' as u8, 'b' as u8, 'c' as u8) {
        Some(if rev == IsaRevision::V1 { 0b000_00_101u8 } else { 0b000_00_001u8 })
    } else if tok3(m, 'c' as u8, 'm' as u8, 'p' as u8) {
        Some(0b000_00_010u8)
    } else if tok3(m, 'c' as u8, 'p' as u8, 'c' as u8) {
        Some(0b000_00_011u8)
    } else if tok3(m, 'a' as u8, 'd' as u8, 'd' as u8) {
        Some(if rev == IsaRevision::V1 { 0b000_00_000u8 } else { 0b000_00_100u8 })
    } else if tok3(m, 'a' as u8, 'd' as u8, 'c' as u8) {
        Some(if rev == IsaRevision::V1 { 0b000_00_001u8 } else { 0b000_00_101u8 })
    } else if tok3(m, 'm' as u8, 'u' as u8, 'l' as u8) {
        Some(0b000_00_110u8)
    } else if tok3(m, 'd' as u8, 'i' as u8, 'v' as u8) {
        Some(0b000_00_111u8)
    } else {
        None
    }
}

/// The opcode of a one-operand instruction: the arithmetic family, the
/// logic/shift family, memory load/store, the immediate loads, and the
/// status-register set.
pub open spec fn spec_opcode1(m: Seq<u8>, a: Seq<u8>, rev: IsaRevision) -> Option<u8> {
    if spec_arith_tag(m, rev) is Some {
        spec_or_field(spec_arith_tag(m, rev)->Some_0, spec_src_to_bits(a))
    } else if tok3(m, 'l' as u8, 's' as u8, 'l' as u8) {
        spec_or_field(0b001_00_000u8, spec_half_imm_to_bits(a))
    } else if tok3(m, 'r' as u8, 'o' as u8, 'l' as u8) {
        spec_or_field(0b001_00_001u8, spec_half_imm_to_bits(a))
    } else if tok3(m, 'l' as u8, 's' as u8, 'r' as u8) {
        spec_or_field(0b001_00_010u8, spec_half_imm_to_bits(a))
    } else if tok3(m, 'r' as u8, 'o' as u8, 'r' as u8) {
        spec_or_field(0b001_00_011u8, spec_half_imm_to_bits(a))
    } else if tok3(m, 'a' as u8, 'n' as u8, 'd' as u8) {
        spec_or_field(0b001_00_100u8, spec_src_to_bits(a))
    } else if tok2(m, 'o' as u8, 'r' as u8) {
        spec_or_field(0b001_00_101u8, spec_src_to_bits(a))
    } else if tok3(m, 'x' as u8, 'o' as u8, 'r' as u8) {
        spec_or_field(0b001_00_110u8, spec_src_to_bits(a))
    } else if tok3(m, 'l' as u8, 'd' as u8, 's' as u8) {
        spec_or_field(0b010_0_0000u8, spec_imm_to_bits(a))
    } else if tok3(m, 's' as u8, 't' as u8, 's' as u8) {
        spec_or_field(0b010_1_0000u8, spec_imm_to_bits(a))
    } else if tok3(m, 's' as u8, 't' as u8, 'l' as u8) {
        spec_or_field(0b100_0_0000u8, spec_imm_to_bits(a))
    } else if tok3(m, 's' as u8, 't' as u8, 'h' as u8) {
        spec_or_field(0b100_1_0000u8, spec_imm_to_bits(a))
    } else if tok3(m, 's' as u8, 'd' as u8, 'l' as u8) {
        spec_or_field(0b101_0_0000u8, spec_imm_to_bits(a))
    } else if tok3(m, 's' as u8, 'd' as u8, 'h' as u8) {
        spec_or_field(0b101_1_0000u8, spec_imm_to_bits(a))
    } else if tok3(m, 's' as u8, 's' as u8, 'r' as u8) {
        spec_or_field(0b110_1_0000u8, spec_status_to_bits(a))
    } else {
        None
    }
}

/// The opcode of a two-operand instruction: only the register move, whose
/// source is an extended/special register and whose destination is a plain
/// register, in disjoint fields.
pub open spec fn spec_opcode2(m: Seq<u8>, a: Seq<u8>, b: Seq<u8>) -> Option<u8> {
    if tok3(m, 'm' as u8, 'o' as u8, 'v' as u8) {
        match (spec_special_to_bits(a), spec_dst_to_bits(b)) {
            (Some(x), Some(y)) => Some(0b111_00_00_0u8 | x | y),
            _ => None,
        }
    } else {
        None
    }
}

/// The opcode of a token sequence: shapes are keyed by arity (0, 1 or 2
/// operand tokens after the mnemonic); anything else fails.
pub open spec fn spec_opcode(toks: Seq<Seq<u8>>, rev: IsaRevision) -> Option<u8> {
    if toks.len() == 1 {
        spec_opcode0(toks[0], rev)
    } else if toks.len() == 2 {
        spec_opcode1(toks[0], toks[1], rev)
    } else if toks.len() == 3 {
        spec_opcode2(toks[0], toks[1], toks[2])
    } else {
        None
    }
}

/// The opcode of a source line that has already had any comment removed:
/// tokenize, then match against the instruction table.
pub open spec fn spec_parse_instr(s: Seq<u8>, rev: IsaRevision) -> Option<u8> {
    spec_opcode(spec_tokens(s), rev)
}

/// The opcode of a raw source line: strip a trailing `//` comment, tokenize,
/// then match against the instruction table.
pub open spec fn spec_encode(s: Seq<u8>, rev: IsaRevision) -> Option<u8> {
    spec_parse_instr(spec_strip_comment(s), rev)
}

fn is_tok2(t: &[u8], a: u8, b: u8) -> (r: bool)
    ensures
        r == tok2(t@, a, b),
{
    t.len() == 2 && t[0] == a && t[1] == b
}

fn is_tok3(t: &[u8], a: u8, b: u8, c: u8) -> (r: bool)
    ensures
        r == tok3(t@, a, b, c),
{
    t.len() == 3 && t[0] == a && t[1] == b && t[2] == c
}

fn is_tok4(t: &[u8], a: u8, b: u8, c: u8, d: u8) -> (r: bool)
    ensures
        r == tok4(t@, a, b, c, d),
{
    t.len() == 4 && t[0] == a && t[1] == b && t[2] == c && t[3] == d
}

fn opcode0(m: &[u8], rev: IsaRevision) -> (r: Option<u8>)
    ensures
        r == spec_opcode0(m@, rev),
{
    if is_tok3(m, 'n' as u8, 'e' as u8, 'g' as u8) {
        Some(0b001_00_111u8)
    } else if is_tok3(m, 'n' as u8, 'o' as u8, 't' as u8) {
        Some(0b001_01_111u8)
    } else if is_tok3(m, 'i' as u8, 'n' as u8, 'c' as u8) {
        Some(if rev == IsaRevision::V1 { 0b001_11_111u8 } else { 0b001_10_111u8 })
    } else if is_tok3(m, 'd' as u8, 'e' as u8, 'c' as u8) {
        Some(if rev == IsaRevision::V1 { 0b001_10_111u8 } else { 0b001_11_111u8 })
    } else if is_tok4(m, 'b' as u8, 'r' as u8, 'v' as u8, 's' as u8) {
        Some(0b110_00_000u8)
    } else if is_tok3(m, 'j' as u8, 'm' as u8, 'p' as u8) {
        Some(0b110_00_001u8)
    } else if is_tok4(m, 'b' as u8, 'r' as u8, 'c' as u8, 's' as u8) {
        Some(0b110_00_010u8)
    } else if is_tok4(m, 'b' as u8, 'r' as u8, 'c' as u8, 'c' as u8) {
        Some(0b110_00_011u8)
    } else if is_tok4(m, 'b' as u8, 'r' as u8, 'e' as u8, 'q' as u8) {
        Some(0b110_00_100u8)
    } else if is_tok4(m, 'b' as u8, 'r' as u8, 'n' as u8, 'e' as u8) {
        Some(0b110_00_101u8)
    } else if is_tok4(m, 'b' as u8, 'r' as u8, 'n' as u8, 's' as u8) {
        Some(0b110_00_110u8)
    } else if is_tok4(m, 'b' as u8, 'r' as u8, 'n' as u8, 'c' as u8) {
        Some(0b110_00_111u8)
    } else {
        None
    }
}

fn arith_tag(m: &[u8], rev: IsaRevision) -> (r: Option<u8>)
    ensures
        r == spec_arith_tag(m@, rev),
{
    if is_tok3(m, 's' as u8, 'u' as u8, 'b' as u8) {
        Some(if rev == IsaRevision::V1 { 0b000_00_100u8 } else { 0b000_00_000u8 })
    } else if is_tok3(m, 's' as u8, 'b' as u8, 'c' as u8) {
        Some(if rev == IsaRevision::V1 { 0b000_00_101u8 } else { 0b000_00_001u8 })
    } else if is_tok3(m, 'c' as u8, 'm' as u8, 'p' as u8) {
        Some(0b000_00_010u8)
    } else if is_tok3(m, 'c' as u8, 'p' as u8, 'c' as u8) {
        Some(0b000_00_011u8)
    } else if is_tok3(m, 'a' as u8, 'd' as u8, 'd' as u8) {
        Some(if rev == IsaRevision::V1 { 0b000_00_000u8 } else { 0b000_00_100u8 })
    } else if is_tok3(m, 'a' as u8, 'd' as u8, 'c' as u8) {
        Some(if rev == IsaRevision::V1 { 0b000_00_001u8 } else { 0b000_00_101u8 })
    } else if is_tok3(m, 'm' as u8, 'u' as u8, 'l' as u8) {
        Some(0b000_00_110u8)
    } else if is_tok3(m, 'd' as u8, 'i' as u8, 'v' as u8) {
        Some(0b000_00_111u8)
    } else {
        None
    }
}

fn opcode1(m: &[u8], a: &[u8], rev: IsaRevision) -> (r: Option<u8>)
    ensures
        r == spec_opcode1(m@, a@, rev),
{
    let tag = arith_tag(m, rev);
    if let Some(t) = tag {
        or_field(t, src_to_bits(a))
    } else if is_tok3(m, 'l' as u8, 's' as u8, 'l' as u8) {
        or_field(0b001_00_000u8, half_imm_to_bits(a))
    } else if is_tok3(m, 'r' as u8, 'o' as u8, 'l' as u8) {
        or_field(0b001_00_001u8, half_imm_to_bits(a))
    } else if is_tok3(m, 'l' as u8, 's' as u8, 'r' as u8) {
        or_field(0b001_00_010u8, half_imm_to_bits(a))
    } else if is_tok3(m, 'r' as u8, 'o' as u8, 'r' as u8) {
        or_field(0b001_00_011u8, half_imm_to_bits(a))
    } else if is_tok3(m, 'a' as u8, 'n' as u8, 'd' as u8) {
        or_field(0b001_00_100u8, src_to_bits(a))
    } else if is_tok2(m, 'o' as u8, 'r' as u8) {
        or_field(0b001_00_101u8, src_to_bits(a))
    } else if is_tok3(m, 'x' as u8, 'o' as u8, 'r' as u8) {
        or_field(0b001_00_110u8, src_to_bits(a))
    } else if is_tok3(m, 'l' as u8, 'd' as u8, 's' as u8) {
        or_field(0b010_0_0000u8, imm_to_bits(a))
    } else if is_tok3(m, 's' as u8, 't' as u8, 's' as u8) {
        or_field(0b010_1_0000u8, imm_to_bits(a))
    } else if is_tok3(m, 's' as u8, 't' as u8, 'l' as u8) {
        or_field(0b100_0_0000u8, imm_to_bits(a))
    } else if is_tok3(m, 's' as u8, 't' as u8, 'h' as u8) {
        or_field(0b100_1_0000u8, imm_to_bits(a))
    } else if is_tok3(m, 's' as u8, 'd' as u8, 'l' as u8) {
        or_field(0b101_0_0000u8, imm_to_bits(a))
    } else if is_tok3(m, 's' as u8, 'd' as u8, 'h' as u8) {
        or_field(0b101_1_0000u8, imm_to_bits(a))
    } else if is_tok3(m, 's' as u8, 's' as u8, 'r' as u8) {
        or_field(0b110_1_0000u8, status_to_bits(a))
    } else {
        None
    }
}

fn opcode2(m: &[u8], a: &[u8], b: &[u8]) -> (r: Option<u8>)
    ensures
        r == spec_opcode2(m@, a@, b@),
{
    if is_tok3(m, 'm' as u8, 'o' as u8, 'v' as u8) {
        match (special_to_bits(a), dst_to_bits(b)) {
            (Some(x), Some(y)) => Some(0b111_00_00_0u8 | x | y),
            _ => None,
        }
    } else {
        None
    }
}

/// Matches a comment-free source line against the instruction table of the
/// given ISA revision, returning its opcode byte, or `None` exactly when the
/// mnemonic is unknown, the arity is wrong, or an operand token lies outside
/// its field's domain.
pub fn parse_instr(line: &[u8], rev: IsaRevision) -> (r: Option<u8>)
    ensures
        r == spec_parse_instr(line@, rev),
{
    let toks = tokenize(line);
    proof {
        assert(forall|k: int|
            0 <= k < toks@.len() ==> #[trigger] toks.deep_view()[k] =~= toks@[k]@);
    }
    if toks.len() == 1 {
        opcode0(toks[0].as_slice(), rev)
    } else if toks.len() == 2 {
        opcode1(toks[0].as_slice(), toks[1].as_slice(), rev)
    } else if toks.len() == 3 {
        opcode2(toks[0].as_slice(), toks[1].as_slice(), toks[2].as_slice())
    } else {
        None
    }
}

/// Encodes one raw source line: strips a trailing `//` comment, tokenizes,
/// and matches against the instruction table. Returns the opcode byte, or
/// `None` exactly when the comment-free line is malformed.
pub fn encode(line: &[u8], rev: IsaRevision) -> (r: Option<u8>)
    ensures
        r == spec_encode(line@, rev),
{
    let stripped = strip_comment(line);
    parse_instr(stripped.as_slice(), rev)
}

// ---------------------------------------------------------------------------
// Laws: encoding is insensitive to a trailing comment.
// ---------------------------------------------------------------------------

/// The two-byte comment marker `//`.
pub open spec fn comment_marker() -> Seq<u8> {
    seq!['/' as u8, '/' as u8]
}

/// A sequence made only of ASCII whitespace bytes.
pub open spec fn all_ws(s: Seq<u8>) -> bool {
    forall|i: int| 0 <= i < s.len() ==> is_ws(#[trigger] s[i])
}

/// A whitespace-only sequence holds no comment marker.
proof fn lemma_ws_no_marker(w: Seq<u8>)
    requires
        all_ws(w),
    ensures
        comment_start(w) == w.len(),
    decreases w.len(),
{
    if w.len() >= 2 {
        assert(w[0] != '/' as u8);
        assert(all_ws(w.drop_first()));
        lemma_ws_no_marker(w.drop_first());
    }
}

/// Scanning for the comment marker distributes over concatenation when the
/// left part is marker-free and no marker straddles the boundary.
proof fn lemma_comment_start_concat(s: Seq<u8>, t: Seq<u8>)
    requires
        comment_start(s) == s.len(),
        t.len() >= 1,
        !(s.len() > 0 && s.last() == '/' as u8 && t[0] == '/' as u8),
    ensures
        comment_start(s + t) == s.len() + comment_start(t),
    decreases s.len(),
{
    if s.len() == 0 {
        assert(s + t =~= t);
    } else {
        let u = s + t;
        assert(u.len() >= 2);
        assert(u[0] == s[0]);
        if s.len() >= 2 {
            assert(u[1] == s[1]);
            assert(!(s[0] == '/' as u8 && s[1] == '/' as u8));
            assert(s.drop_first().len() > 0 ==> s.drop_first().last() == s.last());
        } else {
            assert(u[1] == t[0]);
        }
        assert(!(u[0] == '/' as u8 && u[1] == '/' as u8));
        assert(u.drop_first() =~= s.drop_first() + t);
        lemma_comment_start_concat(s.drop_first(), t);
    }
}

/// Tokenizing ignores trailing whitespace: what is left of a whitespace-only
/// sequence is just the pending token.
proof fn lemma_tokens_ws_only(w: Seq<u8>, cur: Seq<u8>)
    requires
        all_ws(w),
    ensures
        tokens_from(w, cur) == flush_token(cur),
    decreases w.len(),
{
    if w.len() > 0 {
        assert(all_ws(w.drop_first()));
        lemma_tokens_ws_only(w.drop_first(), Seq::empty());
        assert(flush_token(cur) + flush_token(Seq::<u8>::empty()) =~~= flush_token(cur));
    }
}

/// Appending whitespace to a line does not change its tokens.
proof fn lemma_tokens_append_ws(s: Seq<u8>, w: Seq<u8>, cur: Seq<u8>)
    requires
        all_ws(w),
    ensures
        tokens_from(s + w, cur) == tokens_from(s, cur),
    decreases s.len(),
{
    if s.len() == 0 {
        assert(s + w =~= w);
        lemma_tokens_ws_only(w, cur);
    } else {
        let u = s + w;
        assert(u[0] == s[0]);
        assert(u.drop_first() =~= s.drop_first() + w);
        lemma_tokens_append_ws(s.drop_first(), w, cur.push(s[0]));
        lemma_tokens_append_ws(s.drop_first(), w, Seq::empty());
    }
}

/// Encoding is insensitive to a trailing comment: appending whitespace, the
/// comment marker and arbitrary comment text to a marker-free line leaves
/// its encoding unchanged, in every ISA revision.
pub proof fn lemma_comment_insensitive(s: Seq<u8>, w: Seq<u8>, rest: Seq<u8>, rev: IsaRevision)
    requires
        comment_start(s) == s.len(),
        all_ws(w),
        w.len() >= 1,
    ensures
        spec_encode(s + w + comment_marker() + rest, rev) == spec_encode(s, rev),
{
    let tail = w + comment_marker() + rest;
    let full = s + tail;
    assert(s + w + comment_marker() + rest =~= full);
    assert(tail[0] == w[0]);
    assert(is_ws(w[0]));
    lemma_comment_start_concat(s, tail);
    assert((comment_marker() + rest)[0] == '/' as u8);
    assert((comment_marker() + rest)[1] == '/' as u8);
    assert(comment_start(comment_marker() + rest) == 0);
    lemma_ws_no_marker(w);
    assert(w.last() == w[w.len() - 1]);
    lemma_comment_start_concat(w, comment_marker() + rest);
    assert(w + (comment_marker() + rest) =~= tail);
    assert(comment_start(tail) == w.len());
    assert(comment_start(full) == s.len() + w.len());
    lemma_comment_start_bounds(full);
    assert(spec_strip_comment(full) =~= s + w);
    lemma_tokens_append_ws(s, w, Seq::empty());
    assert(spec_tokens(s + w) == spec_tokens(s));
    assert(spec_strip_comment(s) =~= s);
}

/// Stripping a line that holds no comment marker leaves it unchanged, so
/// encoding a stripped line is encoding the line: stripping is idempotent.
pub proof fn lemma_strip_idempotent(s: Seq<u8>, rev: IsaRevision)
    ensures
        spec_encode(spec_strip_comment(s), rev) == spec_encode(s, rev),
{
    lemma_comment_start_bounds(s);
    let p = spec_strip_comment(s);
    lemma_strip_no_marker(s);
    assert(spec_strip_comment(p) =~= p);
}

/// The prefix before the first comment marker holds no comment marker.
proof fn lemma_strip_no_marker(s: Seq<u8>)
    ensures
        comment_start(spec_strip_comment(s)) == spec_strip_comment(s).len(),
    decreases s.len(),
{
    lemma_comment_start_bounds(s);
    let p = spec_strip_comment(s);
    if s.len() < 2 {
        assert(p =~= s);
    } else if s[0] == '/' as u8 && s[1] == '/' as u8 {
        assert(p =~= Seq::<u8>::empty());
    } else {
        lemma_strip_no_marker(s.drop_first());
        lemma_comment_start_bounds(s.drop_first());
        let q = spec_strip_comment(s.drop_first());
        assert(p =~= seq![s[0]] + q);
        if p.len() >= 2 {
            assert(p[0] == s[0]);
            assert(p[1] == q[0]);
            assert(q[0] == s.drop_first()[0]);
            assert(p.drop_first() =~= q);
        }
    }
}

} // verus!
