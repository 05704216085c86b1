//! Textual emission of placement commands, byte for byte. Each bit of the
//! image becomes exactly one output line:
//!
//! `setblock ~<x> ~<y> ~<z> minecraft:redstone_wall_torch[facing=east] replace`
//! for a set bit, or `setblock ~<x> ~<y> ~<z> minecraft:air replace` for a
//! clear one, with the coordinates as plain signed decimal integers. The
//! downstream consumer requires exact reproduction of this grammar.

use vstd::prelude::*;
use crate::codec::{spec_bit, spec_x, spec_y, spec_z, Placement, OFFSET_Z, SIZE_X, SIZE_Y, STRIDE_Z};
use crate::ROM_BYTES;

verus! {

/// The decimal digits of `n`, most significant first, no leading zeros
/// (a single `0` for zero).
pub open spec fn spec_dec_digits(n: nat) -> Seq<u8>
    decreases n,
{
    if n < 10 {
        seq![(48 + n) as u8]
    } else {
        spec_dec_digits(n / 10).push((48 + n % 10) as u8)
    }
}

/// The signed decimal rendering of `i`: a `-` sign for negative values,
/// then the digits of the magnitude.
pub open spec fn spec_dec_int(i: int) -> Seq<u8> {
    if i < 0 {
        seq!['-' as u8] + spec_dec_digits((-i) as nat)
    } else {
        spec_dec_digits(i as nat)
    }
}

/// Appends the decimal digits of `n` to `out`.
fn push_dec_u(n: u64, out: &mut Vec<u8>)
    ensures
        final(out)@ == old(out)@ + spec_dec_digits(n as nat),
    decreases n,
{
    let ghost start = out@;
    if n < 10 {
        out.push(48 + n as u8);
        proof {
            assert(out@ =~= start + spec_dec_digits(n as nat));
        }
    } else {
        push_dec_u(n / 10, out);
        out.push(48 + (n % 10) as u8);
        proof {
            assert(out@ =~= start + spec_dec_digits(n as nat));
        }
    }
}

/// Appends the signed decimal rendering of `i` to `out`.
fn push_dec_i(i: isize, out: &mut Vec<u8>)
    ensures
        final(out)@ == old(out)@ + spec_dec_int(i as int),
{
    let ghost start = out@;
    if i >= 0 {
        push_dec_u(i as u64, out);
    } else {
        out.push('-' as u8);
        let mag: u64 = (-(i as i128)) as u64;
        proof {
            assert(mag as nat == (-(i as int)) as nat);
        }
        push_dec_u(mag, out);
        proof {
            assert(out@ =~= start + spec_dec_int(i as int));
        }
    }
}

/// The fixed start of every command line, up to the first coordinate.
pub open spec fn lit_prefix() -> Seq<u8> {
    seq!['s' as u8, 'e' as u8, 't' as u8, 'b' as u8, 'l' as u8, 'o' as u8, 'c' as u8, 'k' as u8,
        ' ' as u8, '~' as u8]
}

/// The separator between two coordinates.
pub open spec fn lit_sep() -> Seq<u8> {
    seq![' ' as u8, '~' as u8]
}

/// The tail of a command line that places the directional marker block.
pub open spec fn lit_marker_tail() -> Seq<u8> {
    seq![' ' as u8, 'm' as u8, 'i' as u8, 'n' as u8, 'e' as u8, 'c' as u8, 'r' as u8, 'a' as u8,
        'f' as u8, 't' as u8, ':' as u8, 'r' as u8, 'e' as u8, 'd' as u8, 's' as u8, 't' as u8,
        'o' as u8, 'n' as u8, 'e' as u8, '_' as u8, 'w' as u8, 'a' as u8, 'l' as u8, 'l' as u8,
        '_' as u8, 't' as u8, 'o' as u8, 'r' as u8, 'c' as u8, 'h' as u8, '[' as u8, 'f' as u8,
        'a' as u8, 'c' as u8, 'i' as u8, 'n' as u8, 'g' as u8, '=' as u8, 'e' as u8, 'a' as u8,
        's' as u8, 't' as u8, ']' as u8, ' ' as u8, 'r' as u8, 'e' as u8, 'p' as u8, 'l' as u8,
        'a' as u8, 'c' as u8, 'e' as u8, '\n' as u8]
}

/// The tail of a command line that places the absence block.
pub open spec fn lit_absence_tail() -> Seq<u8> {
    seq![' ' as u8, 'm' as u8, 'i' as u8, 'n' as u8, 'e' as u8, 'c' as u8, 'r' as u8, 'a' as u8,
        'f' as u8, 't' as u8, ':' as u8, 'a' as u8, 'i' as u8, 'r' as u8, ' ' as u8, 'r' as u8,
        'e' as u8, 'p' as u8, 'l' as u8, 'a' as u8, 'c' as u8, 'e' as u8, '\n' as u8]
}

fn push_prefix(out: &mut Vec<u8>)
    ensures
        final(out)@ == old(out)@ + lit_prefix(),
{
    let ghost start = out@;
    out.push('s' as u8);
    out.push('e' as u8);
    out.push('t' as u8);
    out.push('b' as u8);
    out.push('l' as u8);
    out.push('o' as u8);
    out.push('c' as u8);
    out.push('k' as u8);
    out.push(' ' as u8);
    out.push('~' as u8);
    proof {
        assert(out@ =~= start + lit_prefix());
    }
}

fn push_sep(out: &mut Vec<u8>)
    ensures
        final(out)@ == old(out)@ + lit_sep(),
{
    let ghost start = out@;
    out.push(' ' as u8);
    out.push('~' as u8);
    proof {
        assert(out@ =~= start + lit_sep());
    }
}

fn push_marker_tail(out: &mut Vec<u8>)
    ensures
        final(out)@ == old(out)@ + lit_marker_tail(),
{
    let ghost start = out@;
    out.push(' ' as u8);
    out.push('m' as u8);
    out.push('i' as u8);
    out.push('n' as u8);
    out.push('e' as u8);
    out.push('c' as u8);
    out.push('r' as u8);
    out.push('a' as u8);
    out.push('f' as u8);
    out.push('t' as u8);
    out.push(':' as u8);
    out.push('r' as u8);
    out.push('e' as u8);
    out.push('d' as u8);
    out.push('s' as u8);
    out.push('t' as u8);
    out.push('o' as u8);
    out.push('n' as u8);
    out.push('e' as u8);
    out.push('_' as u8);
    out.push('w' as u8);
    out.push('a' as u8);
    out.push('l' as u8);
    out.push('l' as u8);
    out.push('_' as u8);
    out.push('t' as u8);
    out.push('o' as u8);
    out.push('r' as u8);
    out.push('c' as u8);
    out.push('h' as u8);
    out.push('[' as u8);
    out.push('f' as u8);
    out.push('a' as u8);
    out.push('c' as u8);
    out.push('i' as u8);
    out.push('n' as u8);
    out.push('g' as u8);
    out.push('=' as u8);
    out.push('e' as u8);
    out.push('a' as u8);
    out.push('s' as u8);
    out.push('t' as u8);
    out.push(']' as u8);
    out.push(' ' as u8);
    out.push('r' as u8);
    out.push('e' as u8);
    out.push('p' as u8);
    out.push('l' as u8);
    out.push('a' as u8);
    out.push('c' as u8);
    out.push('e' as u8);
    out.push('\n' as u8);
    proof {
        assert(out@ =~= start + lit_marker_tail());
    }
}

fn push_absence_tail(out: &mut Vec<u8>)
    ensures
        final(out)@ == old(out)@ + lit_absence_tail(),
{
    let ghost start = out@;
    out.push(' ' as u8);
    out.push('m' as u8);
    out.push('i' as u8);
    out.push('n' as u8);
    out.push('e' as u8);
    out.push('c' as u8);
    out.push('r' as u8);
    out.push('a' as u8);
    out.push('f' as u8);
    out.push('t' as u8);
    out.push(':' as u8);
    out.push('a' as u8);
    out.push('i' as u8);
    out.push('r' as u8);
    out.push(' ' as u8);
    out.push('r' as u8);
    out.push('e' as u8);
    out.push('p' as u8);
    out.push('l' as u8);
    out.push('a' as u8);
    out.push('c' as u8);
    out.push('e' as u8);
    out.push('\n' as u8);
    proof {
        assert(out@ =~= start + lit_absence_tail());
    }
}

/// One full command line for a bit at coordinate (x, y, z).
pub open spec fn spec_command_line(x: int, y: int, z: int, set: bool) -> Seq<u8> {
    lit_prefix() + spec_dec_int(x) + lit_sep() + spec_dec_int(y) + lit_sep() + spec_dec_int(z) + (
    if set {
        lit_marker_tail()
    } else {
        lit_absence_tail()
    })
}

/// Appends one full command line to `out`.
fn push_command_line(x: isize, y: isize, z: isize, set: bool, out: &mut Vec<u8>)
    ensures
        final(out)@ == old(out)@ + spec_command_line(x as int, y as int, z as int, set),
{
    let ghost start = out@;
    push_prefix(out);
    push_dec_i(x, out);
    push_sep(out);
    push_dec_i(y, out);
    push_sep(out);
    push_dec_i(z, out);
    if set {
        push_marker_tail(out);
    } else {
        push_absence_tail(out);
    }
    proof {
        assert(out@ =~= start + spec_command_line(x as int, y as int, z as int, set));
    }
}

/// The eight command lines of one byte, from bit position `m` on: bit
/// position `m` sits at `z = spec_z(m)` and holds bit `7 - m` of the byte.
pub open spec fn spec_byte_lines(x: int, y: int, b: u8, m: int) -> Seq<u8>
    decreases 8 - m,
{
    if m < 0 || m >= 8 {
        Seq::empty()
    } else {
        spec_command_line(x, y, spec_z(m), spec_bit(b, m)) + spec_byte_lines(x, y, b, m + 1)
    }
}

/// The full text of one byte: eight command lines, most significant bit
/// first, at Z coordinates 0, -2, ... -14 relative to (x, y).
pub open spec fn spec_write_byte(x: int, y: int, b: u8) -> Seq<u8> {
    spec_byte_lines(x, y, b, 0)
}

/// Renders the eight command lines of the byte `b` whose byte position is at
/// (x, y): one line per bit, most significant first.
pub fn write_byte(x: isize, y: isize, b: u8) -> (r: Vec<u8>)
    ensures
        r@ == spec_write_byte(x as int, y as int, b),
{
    let mut out: Vec<u8> = Vec::new();
    let mut m: usize = 0;
    while m < 8
        invariant
            m <= 8,
            out@ + spec_byte_lines(x as int, y as int, b, m as int) == spec_write_byte(
                x as int,
                y as int,
                b,
            ),
        decreases 8 - m,
    {
        proof {
            assert(-16 <= (m as isize) * STRIDE_Z <= 0) by (nonlinear_arith)
                requires
                    0 <= m < 8,
                    STRIDE_Z == -2isize,
            ;
        }
        let z: isize = (m as isize) * STRIDE_Z + OFFSET_Z;
        let set = (b >> ((7 - m) as u8)) & 1 == 1;
        push_command_line(x, y, z, set, &mut out);
        proof {
            assert(out@ + spec_byte_lines(x as int, y as int, b, m + 1) =~= spec_write_byte(
                x as int,
                y as int,
                b,
            ));
        }
        m = m + 1;
    }
    proof {
        assert(out@ =~= spec_write_byte(x as int, y as int, b));
    }
    out
}

/// The command lines of every image byte from linear index `i` on, rows
/// traversed in row-major order: byte `i` sits in row `i / 32` and column
/// `i % 32`.
pub open spec fn spec_image_lines(img: Seq<u8>, i: int) -> Seq<u8>
    decreases ROM_BYTES - i,
{
    if i < 0 || i >= ROM_BYTES {
        Seq::empty()
    } else {
        spec_write_byte(spec_x(i % (SIZE_X as int)), spec_y(i / (SIZE_X as int)), img[i])
            + spec_image_lines(img, i + 1)
    }
}

/// The complete output text of an image: 1024 command lines, bytes in
/// linear (row-major) order, bits most significant first.
pub open spec fn spec_render_image(img: Seq<u8>) -> Seq<u8>
    recommends
        img.len() == ROM_BYTES,
{
    spec_image_lines(img, 0)
}

/// Renders the complete output text of a 128-byte ROM image.
pub fn render_image(image: &Vec<u8>) -> (r: Vec<u8>)
    requires
        image@.len() == ROM_BYTES,
    ensures
        r@ == spec_render_image(image@),
{
    let mut out: Vec<u8> = Vec::new();
    let mut i: usize = 0;
    while i < ROM_BYTES
        invariant
            image@.len() == ROM_BYTES,
            i <= ROM_BYTES,
            out@ + spec_image_lines(image@, i as int) == spec_render_image(image@),
        decreases ROM_BYTES - i,
    {
        let col = i % SIZE_X;
        let row = i / SIZE_X;
        let x = (col as isize) * crate::codec::STRIDE_X + crate::codec::OFFSET_X;
        let y = (row as isize) * crate::codec::STRIDE_Y + crate::codec::OFFSET_Y;
        let mut chunk = write_byte(x, y, image[i]);
        out.append(&mut chunk);
        proof {
            assert(out@ + spec_image_lines(image@, i + 1) =~= spec_render_image(image@));
        }
        i = i + 1;
    }
    proof {
        assert(out@ =~= spec_render_image(image@));
    }
    out
}

// ---------------------------------------------------------------------------
// Law: the rendered text is the rendering of the layout codec's commands.
// ---------------------------------------------------------------------------

/// The command line of one placement command.
pub open spec fn spec_render_placement(p: Placement) -> Seq<u8> {
    spec_command_line(p.x as int, p.y as int, p.z as int, p.set)
}

/// The concatenated command lines of a command sequence, in order.
pub open spec fn spec_render_commands(cmds: Seq<Placement>) -> Seq<u8>
    decreases cmds.len(),
{
    if cmds.len() == 0 {
        Seq::empty()
    } else {
        spec_render_placement(cmds[0]) + spec_render_commands(cmds.drop_first())
    }
}

/// Rendering distributes over concatenation of command sequences.
proof fn lemma_render_commands_concat(a: Seq<Placement>, b: Seq<Placement>)
    ensures
        spec_render_commands(a + b) == spec_render_commands(a) + spec_render_commands(b),
    decreases a.len(),
{
    if a.len() == 0 {
        assert(a + b =~= b);
        assert(spec_render_commands(a) + spec_render_commands(b) =~= spec_render_commands(b));
    } else {
        assert((a + b)[0] == a[0]);
        assert((a + b).drop_first() =~= a.drop_first() + b);
        lemma_render_commands_concat(a.drop_first(), b);
        assert(spec_render_placement(a[0]) + (spec_render_commands(a.drop_first())
            + spec_render_commands(b)) =~= spec_render_commands(a) + spec_render_commands(b));
    }
}

/// The eight command lines of byte `i` from bit position `m` on are the
/// rendering of the matching slice of the image's command sequence.
proof fn lemma_byte_lines_render(img: Seq<u8>, i: int, m: int)
    requires
        img.len() == ROM_BYTES,
        0 <= i < ROM_BYTES,
        0 <= m <= 8,
    ensures
        spec_byte_lines(spec_x(i % (SIZE_X as int)), spec_y(i / (SIZE_X as int)), img[i], m)
            == spec_render_commands(crate::codec::spec_layout(img).subrange(8 * i + m, 8 * i + 8)),
    decreases 8 - m,
{
    let x = spec_x(i % (SIZE_X as int));
    let y = spec_y(i / (SIZE_X as int));
    let cmds = crate::codec::spec_layout(img).subrange(8 * i + m, 8 * i + 8);
    if m == 8 {
        assert(cmds.len() == 0);
    } else {
        let k = 8 * i + m;
        vstd::arithmetic::div_mod::lemma_fundamental_div_mod_converse(k, 8, i, m);
        let p = crate::codec::spec_placement(img, k);
        assert(cmds[0] == p);
        assert(0 <= i % (SIZE_X as int) < SIZE_X as int);
        assert(0 <= i / (SIZE_X as int) < SIZE_Y as int);
        assert(-64 <= x <= -2 && -15 <= y <= -3 && -14 <= spec_z(m) <= 0) by (nonlinear_arith)
            requires
                0 <= i % (SIZE_X as int) < 32,
                0 <= i / (SIZE_X as int) < 4,
                0 <= m < 8,
                x == (i % (SIZE_X as int)) * -2 + -2,
                y == (i / (SIZE_X as int)) * 4 + -15,
                spec_z(m) == m * -2,
        ;
        assert(p.x as int == x && p.y as int == y && p.z as int == spec_z(m));
        assert(spec_render_placement(p) == spec_command_line(x, y, spec_z(m), spec_bit(img[i], m)));
        assert(cmds.drop_first() =~= crate::codec::spec_layout(img).subrange(8 * i + m + 1, 8 * i
            + 8));
        lemma_byte_lines_render(img, i, m + 1);
    }
}

/// The full rendered text from byte `i` on is the rendering of the matching
/// tail of the image's command sequence.
proof fn lemma_image_lines_render(img: Seq<u8>, i: int)
    requires
        img.len() == ROM_BYTES,
        0 <= i <= ROM_BYTES,
    ensures
        spec_image_lines(img, i) == spec_render_commands(
            crate::codec::spec_layout(img).skip(8 * i),
        ),
    decreases ROM_BYTES - i,
{
    let all = crate::codec::spec_layout(img);
    if i == ROM_BYTES {
        assert(all.skip(8 * i).len() == 0);
    } else {
        lemma_byte_lines_render(img, i, 0);
        lemma_image_lines_render(img, i + 1);
        lemma_render_commands_concat(all.subrange(8 * i, 8 * i + 8), all.skip(8 * i + 8));
        assert(all.skip(8 * i) =~= all.subrange(8 * i, 8 * i + 8) + all.skip(8 * i + 8));
    }
}

/// The emitted text is exactly the layout codec's command sequence, rendered
/// command by command, in order: one line per bit of the image.
pub proof fn lemma_render_matches_layout(img: Seq<u8>)
    requires
        img.len() == ROM_BYTES,
    ensures
        spec_render_image(img) == spec_render_commands(crate::codec::spec_layout(img)),
{
    lemma_image_lines_render(img, 0);
    assert(crate::codec::spec_layout(img).skip(0) =~= crate::codec::spec_layout(img));
}

} // verus!
