use redstone_assembler::codec::{coord_of, layout, Placement};
use redstone_assembler::encoder::IsaRevision;
use redstone_assembler::rom::assemble;

fn lines(src: &[&str]) -> Vec<Vec<u8>> {
    src.iter().map(|s| s.as_bytes().to_vec()).collect()
}

#[test]
fn coordinates_of_first_byte() {
    // Byte 0 sits at row 0, column 0: x = -2, y = -15; its eight bits run
    // down z = 0, -2, ... -14.
    for m in 0..8usize {
        let (x, y, z) = coord_of(0, m);
        assert_eq!(x, -2);
        assert_eq!(y, -15);
        assert_eq!(z, -2 * (m as isize));
    }
}

#[test]
fn coordinates_of_grid_corners() {
    assert_eq!(coord_of(0, 0), (-2, -15, 0));
    assert_eq!(coord_of(31, 0), (-64, -15, 0));
    assert_eq!(coord_of(32, 0), (-2, -11, 0));
    assert_eq!(coord_of(127, 7), (-64, -3, -14));
}

#[test]
fn coordinates_are_unique() {
    // No two of the 128 x 8 (byte, bit) pairs may collide on a coordinate.
    let mut seen: Vec<(isize, isize, isize)> = Vec::new();
    for b in 0..128usize {
        for m in 0..8usize {
            let c = coord_of(b, m);
            assert!(!seen.contains(&c), "collision at byte {b} bit {m}");
            seen.push(c);
        }
    }
    assert_eq!(seen.len(), 1024);
}

#[test]
fn layout_is_deterministic() {
    let img = assemble(&lines(&["add r1", "jmp", "mov r2 r0"]), IsaRevision::V1).unwrap();
    let first = layout(&img);
    let second = layout(&img);
    assert_eq!(first, second);
}

#[test]
fn layout_emits_one_command_per_bit() {
    let img = assemble(&lines(&["add r1", "jmp", "mov r2 r0"]), IsaRevision::V1).unwrap();
    let cmds = layout(&img);
    assert_eq!(cmds.len(), 1024);
    // The first eight commands are byte 0 (0b000_01_000) at (row 0, col 0),
    // most significant bit first.
    let bits = [false, false, false, false, true, false, false, false];
    for m in 0..8usize {
        let expect = Placement { x: -2, y: -15, z: -2 * (m as isize), set: bits[m] };
        assert_eq!(cmds[m], expect);
    }
    // Byte 1 (0b110_00_001) follows one x stride over.
    let bits1 = [true, true, false, false, false, false, false, true];
    for m in 0..8usize {
        let expect = Placement { x: -4, y: -15, z: -2 * (m as isize), set: bits1[m] };
        assert_eq!(cmds[8 + m], expect);
    }
}

#[test]
fn layout_order_is_row_major() {
    let img = vec![0u8; 128];
    let cmds = layout(&img);
    for b in 0..128usize {
        for m in 0..8usize {
            let (x, y, z) = coord_of(b, m);
            let c = cmds[8 * b + m];
            assert_eq!((c.x, c.y, c.z), (x, y, z));
            assert!(!c.set);
        }
    }
}
