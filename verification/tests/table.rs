//! The complete opcode table of each ISA revision, as golden fixtures:
//! every mnemonic with every operand value of its field's domain, against
//! the exact documented byte.

use redstone_assembler::encoder::{encode, IsaRevision};

const TABLE_V1: [(&str, u8); 312] = [
    ("add r0", 0b00000000),
    ("add r1", 0b00001000),
    ("add r2", 0b00010000),
    ("add r3", 0b00011000),
    ("adc r0", 0b00000001),
    ("adc r1", 0b00001001),
    ("adc r2", 0b00010001),
    ("adc r3", 0b00011001),
    ("cmp r0", 0b00000010),
    ("cmp r1", 0b00001010),
    ("cmp r2", 0b00010010),
    ("cmp r3", 0b00011010),
    ("cpc r0", 0b00000011),
    ("cpc r1", 0b00001011),
    ("cpc r2", 0b00010011),
    ("cpc r3", 0b00011011),
    ("sub r0", 0b00000100),
    ("sub r1", 0b00001100),
    ("sub r2", 0b00010100),
    ("sub r3", 0b00011100),
    ("sbc r0", 0b00000101),
    ("sbc r1", 0b00001101),
    ("sbc r2", 0b00010101),
    ("sbc r3", 0b00011101),
    ("mul r0", 0b00000110),
    ("mul r1", 0b00001110),
    ("mul r2", 0b00010110),
    ("mul r3", 0b00011110),
    ("div r0", 0b00000111),
    ("div r1", 0b00001111),
    ("div r2", 0b00010111),
    ("div r3", 0b00011111),
    ("lsl 1", 0b00100000),
    ("lsl 2", 0b00101000),
    ("lsl 3", 0b00110000),
    ("lsl 4", 0b00111000),
    ("rol 1", 0b00100001),
    ("rol 2", 0b00101001),
    ("rol 3", 0b00110001),
    ("rol 4", 0b00111001),
    ("lsr 1", 0b00100010),
    ("lsr 2", 0b00101010),
    ("lsr 3", 0b00110010),
    ("lsr 4", 0b00111010),
    ("ror 1", 0b00100011),
    ("ror 2", 0b00101011),
    ("ror 3", 0b00110011),
    ("ror 4", 0b00111011),
    ("and r0", 0b00100100),
    ("and r1", 0b00101100),
    ("and r2", 0b00110100),
    ("and r3", 0b00111100),
    ("or r0", 0b00100101),
    ("or r1", 0b00101101),
    ("or r2", 0b00110101),
    ("or r3", 0b00111101),
    ("xor r0", 0b00100110),
    ("xor r1", 0b00101110),
    ("xor r2", 0b00110110),
    ("xor r3", 0b00111110),
    ("neg", 0b00100111),
    ("not", 0b00101111),
    ("inc", 0b00111111),
    ("dec", 0b00110111),
    ("lds 0", 0b01000000),
    ("lds 1", 0b01000001),
    ("lds 2", 0b01000010),
    ("lds 3", 0b01000011),
    ("lds 4", 0b01000100),
    ("lds 5", 0b01000101),
    ("lds 6", 0b01000110),
    ("lds 7", 0b01000111),
    ("lds 8", 0b01001000),
    ("lds 9", 0b01001001),
    ("lds 10", 0b01001010),
    ("lds 11", 0b01001011),
    ("lds 12", 0b01001100),
    ("lds 13", 0b01001101),
    ("lds 14", 0b01001110),
    ("lds 15", 0b01001111),
    ("lds 0b0000", 0b01000000),
    ("lds 0b0001", 0b01000001),
    ("lds 0b0010", 0b01000010),
    ("lds 0b0011", 0b01000011),
    ("lds 0b0100", 0b01000100),
    ("lds 0b0101", 0b01000101),
    ("lds 0b0110", 0b01000110),
    ("lds 0b0111", 0b01000111),
    ("lds 0b1000", 0b01001000),
    ("lds 0b1001", 0b01001001),
    ("lds 0b1010", 0b01001010),
    ("lds 0b1011", 0b01001011),
    ("lds 0b1100", 0b01001100),
    ("lds 0b1101", 0b01001101),
    ("lds 0b1110", 0b01001110),
    ("lds 0b1111", 0b01001111),
    ("sts 0", 0b01010000),
    ("sts 1", 0b01010001),
    ("sts 2", 0b01010010),
    ("sts 3", 0b01010011),
    ("sts 4", 0b01010100),
    ("sts 5", 0b01010101),
    ("sts 6", 0b01010110),
    ("sts 7", 0b01010111),
    ("sts 8", 0b01011000),
    ("sts 9", 0b01011001),
    ("sts 10", 0b01011010),
    ("sts 11", 0b01011011),
    ("sts 12", 0b01011100),
    ("sts 13", 0b01011101),
    ("sts 14", 0b01011110),
    ("sts 15", 0b01011111),
    ("sts 0b0000", 0b01010000),
    ("sts 0b0001", 0b01010001),
    ("sts 0b0010", 0b01010010),
    ("sts 0b0011", 0b01010011),
    ("sts 0b0100", 0b01010100),
    ("sts 0b0101", 0b01010101),
    ("sts 0b0110", 0b01010110),
    ("sts 0b0111", 0b01010111),
    ("sts 0b1000", 0b01011000),
    ("sts 0b1001", 0b01011001),
    ("sts 0b1010", 0b01011010),
    ("sts 0b1011", 0b01011011),
    ("sts 0b1100", 0b01011100),
    ("sts 0b1101", 0b01011101),
    ("sts 0b1110", 0b01011110),
    ("sts 0b1111", 0b01011111),
    ("stl 0", 0b10000000),
    ("stl 1", 0b10000001),
    ("stl 2", 0b10000010),
    ("stl 3", 0b10000011),
    ("stl 4", 0b10000100),
    ("stl 5", 0b10000101),
    ("stl 6", 0b10000110),
    ("stl 7", 0b10000111),
    ("stl 8", 0b10001000),
    ("stl 9", 0b10001001),
    ("stl 10", 0b10001010),
    ("stl 11", 0b10001011),
    ("stl 12", 0b10001100),
    ("stl 13", 0b10001101),
    ("stl 14", 0b10001110),
    ("stl 15", 0b10001111),
    ("stl 0b0000", 0b10000000),
    ("stl 0b0001", 0b10000001),
    ("stl 0b0010", 0b10000010),
    ("stl 0b0011", 0b10000011),
    ("stl 0b0100", 0b10000100),
    ("stl 0b0101", 0b10000101),
    ("stl 0b0110", 0b10000110),
    ("stl 0b0111", 0b10000111),
    ("stl 0b1000", 0b10001000),
    ("stl 0b1001", 0b10001001),
    ("stl 0b1010", 0b10001010),
    ("stl 0b1011", 0b10001011),
    ("stl 0b1100", 0b10001100),
    ("stl 0b1101", 0b10001101),
    ("stl 0b1110", 0b10001110),
    ("stl 0b1111", 0b10001111),
    ("sth 0", 0b10010000),
    ("sth 1", 0b10010001),
    ("sth 2", 0b10010010),
    ("sth 3", 0b10010011),
    ("sth 4", 0b10010100),
    ("sth 5", 0b10010101),
    ("sth 6", 0b10010110),
    ("sth 7", 0b10010111),
    ("sth 8", 0b10011000),
    ("sth 9", 0b10011001),
    ("sth 10", 0b10011010),
    ("sth 11", 0b10011011),
    ("sth 12", 0b10011100),
    ("sth 13", 0b10011101),
    ("sth 14", 0b10011110),
    ("sth 15", 0b10011111),
    ("sth 0b0000", 0b10010000),
    ("sth 0b0001", 0b10010001),
    ("sth 0b0010", 0b10010010),
    ("sth 0b0011", 0b10010011),
    ("sth 0b0100", 0b10010100),
    ("sth 0b0101", 0b10010101),
    ("sth 0b0110", 0b10010110),
    ("sth 0b0111", 0b10010111),
    ("sth 0b1000", 0b10011000),
    ("sth 0b1001", 0b10011001),
    ("sth 0b1010", 0b10011010),
    ("sth 0b1011", 0b10011011),
    ("sth 0b1100", 0b10011100),
    ("sth 0b1101", 0b10011101),
    ("sth 0b1110", 0b10011110),
    ("sth 0b1111", 0b10011111),
    ("sdl 0", 0b10100000),
    ("sdl 1", 0b10100001),
    ("sdl 2", 0b10100010),
    ("sdl 3", 0b10100011),
    ("sdl 4", 0b10100100),
    ("sdl 5", 0b10100101),
    ("sdl 6", 0b10100110),
    ("sdl 7", 0b10100111),
    ("sdl 8", 0b10101000),
    ("sdl 9", 0b10101001),
    ("sdl 10", 0b10101010),
    ("sdl 11", 0b10101011),
    ("sdl 12", 0b10101100),
    ("sdl 13", 0b10101101),
    ("sdl 14", 0b10101110),
    ("sdl 15", 0b10101111),
    ("sdl 0b0000", 0b10100000),
    ("sdl 0b0001", 0b10100001),
    ("sdl 0b0010", 0b10100010),
    ("sdl 0b0011", 0b10100011),
    ("sdl 0b0100", 0b10100100),
    ("sdl 0b0101", 0b10100101),
    ("sdl 0b0110", 0b10100110),
    ("sdl 0b0111", 0b10100111),
    ("sdl 0b1000", 0b10101000),
    ("sdl 0b1001", 0b10101001),
    ("sdl 0b1010", 0b10101010),
    ("sdl 0b1011", 0b10101011),
    ("sdl 0b1100", 0b10101100),
    ("sdl 0b1101", 0b10101101),
    ("sdl 0b1110", 0b10101110),
    ("sdl 0b1111", 0b10101111),
    ("sdh 0", 0b10110000),
    ("sdh 1", 0b10110001),
    ("sdh 2", 0b10110010),
    ("sdh 3", 0b10110011),
    ("sdh 4", 0b10110100),
    ("sdh 5", 0b10110101),
    ("sdh 6", 0b10110110),
    ("sdh 7", 0b10110111),
    ("sdh 8", 0b10111000),
    ("sdh 9", 0b10111001),
    ("sdh 10", 0b10111010),
    ("sdh 11", 0b10111011),
    ("sdh 12", 0b10111100),
    ("sdh 13", 0b10111101),
    ("sdh 14", 0b10111110),
    ("sdh 15", 0b10111111),
    ("sdh 0b0000", 0b10110000),
    ("sdh 0b0001", 0b10110001),
    ("sdh 0b0010", 0b10110010),
    ("sdh 0b0011", 0b10110011),
    ("sdh 0b0100", 0b10110100),
    ("sdh 0b0101", 0b10110101),
    ("sdh 0b0110", 0b10110110),
    ("sdh 0b0111", 0b10110111),
    ("sdh 0b1000", 0b10111000),
    ("sdh 0b1001", 0b10111001),
    ("sdh 0b1010", 0b10111010),
    ("sdh 0b1011", 0b10111011),
    ("sdh 0b1100", 0b10111100),
    ("sdh 0b1101", 0b10111101),
    ("sdh 0b1110", 0b10111110),
    ("sdh 0b1111", 0b10111111),
    ("brvs", 0b11000000),
    ("jmp", 0b11000001),
    ("brcs", 0b11000010),
    ("brcc", 0b11000011),
    ("breq", 0b11000100),
    ("brne", 0b11000101),
    ("brns", 0b11000110),
    ("brnc", 0b11000111),
    ("ssr 0000", 0b11010000),
    ("ssr 0001", 0b11010001),
    ("ssr 0010", 0b11010010),
    ("ssr 0011", 0b11010011),
    ("ssr 0100", 0b11010100),
    ("ssr 0101", 0b11010101),
    ("ssr 0110", 0b11010110),
    ("ssr 0111", 0b11010111),
    ("ssr 1000", 0b11011000),
    ("ssr 1001", 0b11011001),
    ("ssr 1010", 0b11011010),
    ("ssr 1011", 0b11011011),
    ("ssr 1100", 0b11011100),
    ("ssr 1101", 0b11011101),
    ("ssr 1110", 0b11011110),
    ("ssr 1111", 0b11011111),
    ("mov r0 r0", 0b11100000),
    ("mov r0 r1", 0b11100010),
    ("mov r0 r2", 0b11100100),
    ("mov r0 r3", 0b11100110),
    ("mov r1 r0", 0b11101000),
    ("mov r1 r1", 0b11101010),
    ("mov r1 r2", 0b11101100),
    ("mov r1 r3", 0b11101110),
    ("mov r2 r0", 0b11110000),
    ("mov r2 r1", 0b11110010),
    ("mov r2 r2", 0b11110100),
    ("mov r2 r3", 0b11110110),
    ("mov r3 r0", 0b11111000),
    ("mov r3 r1", 0b11111010),
    ("mov r3 r2", 0b11111100),
    ("mov r3 r3", 0b11111110),
    ("mov pc r0", 0b11100001),
    ("mov pc r1", 0b11100011),
    ("mov pc r2", 0b11100101),
    ("mov pc r3", 0b11100111),
    ("mov adr r0", 0b11101001),
    ("mov adr r1", 0b11101011),
    ("mov adr r2", 0b11101101),
    ("mov adr r3", 0b11101111),
    ("mov sp r0", 0b11110001),
    ("mov sp r1", 0b11110011),
    ("mov sp r2", 0b11110101),
    ("mov sp r3", 0b11110111),
    ("mov sr r0", 0b11111001),
    ("mov sr r1", 0b11111011),
    ("mov sr r2", 0b11111101),
    ("mov sr r3", 0b11111111),
];

#[test]
fn full_table_v1() {
    for (line, expect) in TABLE_V1 {
        assert_eq!(
            encode(line.as_bytes(), IsaRevision::V1),
            Some(expect),
            "line `{line}`"
        );
    }
}

const TABLE_V2: [(&str, u8); 312] = [
    ("sub r0", 0b00000000),
    ("sub r1", 0b00001000),
    ("sub r2", 0b00010000),
    ("sub r3", 0b00011000),
    ("sbc r0", 0b00000001),
    ("sbc r1", 0b00001001),
    ("sbc r2", 0b00010001),
    ("sbc r3", 0b00011001),
    ("cmp r0", 0b00000010),
    ("cmp r1", 0b00001010),
    ("cmp r2", 0b00010010),
    ("cmp r3", 0b00011010),
    ("cpc r0", 0b00000011),
    ("cpc r1", 0b00001011),
    ("cpc r2", 0b00010011),
    ("cpc r3", 0b00011011),
    ("add r0", 0b00000100),
    ("add r1", 0b00001100),
    ("add r2", 0b00010100),
    ("add r3", 0b00011100),
    ("adc r0", 0b00000101),
    ("adc r1", 0b00001101),
    ("adc r2", 0b00010101),
    ("adc r3", 0b00011101),
    ("mul r0", 0b00000110),
    ("mul r1", 0b00001110),
    ("mul r2", 0b00010110),
    ("mul r3", 0b00011110),
    ("div r0", 0b00000111),
    ("div r1", 0b00001111),
    ("div r2", 0b00010111),
    ("div r3", 0b00011111),
    ("lsl 1", 0b00100000),
    ("lsl 2", 0b00101000),
    ("lsl 3", 0b00110000),
    ("lsl 4", 0b00111000),
    ("rol 1", 0b00100001),
    ("rol 2", 0b00101001),
    ("rol 3", 0b00110001),
    ("rol 4", 0b00111001),
    ("lsr 1", 0b00100010),
    ("lsr 2", 0b00101010),
    ("lsr 3", 0b00110010),
    ("lsr 4", 0b00111010),
    ("ror 1", 0b00100011),
    ("ror 2", 0b00101011),
    ("ror 3", 0b00110011),
    ("ror 4", 0b00111011),
    ("and r0", 0b00100100),
    ("and r1", 0b00101100),
    ("and r2", 0b00110100),
    ("and r3", 0b00111100),
    ("or r0", 0b00100101),
    ("or r1", 0b00101101),
    ("or r2", 0b00110101),
    ("or r3", 0b00111101),
    ("xor r0", 0b00100110),
    ("xor r1", 0b00101110),
    ("xor r2", 0b00110110),
    ("xor r3", 0b00111110),
    ("neg", 0b00100111),
    ("not", 0b00101111),
    ("inc", 0b00110111),
    ("dec", 0b00111111),
    ("lds 0", 0b01000000),
    ("lds 1", 0b01000001),
    ("lds 2", 0b01000010),
    ("lds 3", 0b01000011),
    ("lds 4", 0b01000100),
    ("lds 5", 0b01000101),
    ("lds 6", 0b01000110),
    ("lds 7", 0b01000111),
    ("lds 8", 0b01001000),
    ("lds 9", 0b01001001),
    ("lds 10", 0b01001010),
    ("lds 11", 0b01001011),
    ("lds 12", 0b01001100),
    ("lds 13", 0b01001101),
    ("lds 14", 0b01001110),
    ("lds 15", 0b01001111),
    ("lds 0b0000", 0b01000000),
    ("lds 0b0001", 0b01000001),
    ("lds 0b0010", 0b01000010),
    ("lds 0b0011", 0b01000011),
    ("lds 0b0100", 0b01000100),
    ("lds 0b0101", 0b01000101),
    ("lds 0b0110", 0b01000110),
    ("lds 0b0111", 0b01000111),
    ("lds 0b1000", 0b01001000),
    ("lds 0b1001", 0b01001001),
    ("lds 0b1010", 0b01001010),
    ("lds 0b1011", 0b01001011),
    ("lds 0b1100", 0b01001100),
    ("lds 0b1101", 0b01001101),
    ("lds 0b1110", 0b01001110),
    ("lds 0b1111", 0b01001111),
    ("sts 0", 0b01010000),
    ("sts 1", 0b01010001),
    ("sts 2", 0b01010010),
    ("sts 3", 0b01010011),
    ("sts 4", 0b01010100),
    ("sts 5", 0b01010101),
    ("sts 6", 0b01010110),
    ("sts 7", 0b01010111),
    ("sts 8", 0b01011000),
    ("sts 9", 0b01011001),
    ("sts 10", 0b01011010),
    ("sts 11", 0b01011011),
    ("sts 12", 0b01011100),
    ("sts 13", 0b01011101),
    ("sts 14", 0b01011110),
    ("sts 15", 0b01011111),
    ("sts 0b0000", 0b01010000),
    ("sts 0b0001", 0b01010001),
    ("sts 0b0010", 0b01010010),
    ("sts 0b0011", 0b01010011),
    ("sts 0b0100", 0b01010100),
    ("sts 0b0101", 0b01010101),
    ("sts 0b0110", 0b01010110),
    ("sts 0b0111", 0b01010111),
    ("sts 0b1000", 0b01011000),
    ("sts 0b1001", 0b01011001),
    ("sts 0b1010", 0b01011010),
    ("sts 0b1011", 0b01011011),
    ("sts 0b1100", 0b01011100),
    ("sts 0b1101", 0b01011101),
    ("sts 0b1110", 0b01011110),
    ("sts 0b1111", 0b01011111),
    ("stl 0", 0b10000000),
    ("stl 1", 0b10000001),
    ("stl 2", 0b10000010),
    ("stl 3", 0b10000011),
    ("stl 4", 0b10000100),
    ("stl 5", 0b10000101),
    ("stl 6", 0b10000110),
    ("stl 7", 0b10000111),
    ("stl 8", 0b10001000),
    ("stl 9", 0b10001001),
    ("stl 10", 0b10001010),
    ("stl 11", 0b10001011),
    ("stl 12", 0b10001100),
    ("stl 13", 0b10001101),
    ("stl 14", 0b10001110),
    ("stl 15", 0b10001111),
    ("stl 0b0000", 0b10000000),
    ("stl 0b0001", 0b10000001),
    ("stl 0b0010", 0b10000010),
    ("stl 0b0011", 0b10000011),
    ("stl 0b0100", 0b10000100),
    ("stl 0b0101", 0b10000101),
    ("stl 0b0110", 0b10000110),
    ("stl 0b0111", 0b10000111),
    ("stl 0b1000", 0b10001000),
    ("stl 0b1001", 0b10001001),
    ("stl 0b1010", 0b10001010),
    ("stl 0b1011", 0b10001011),
    ("stl 0b1100", 0b10001100),
    ("stl 0b1101", 0b10001101),
    ("stl 0b1110", 0b10001110),
    ("stl 0b1111", 0b10001111),
    ("sth 0", 0b10010000),
    ("sth 1", 0b10010001),
    ("sth 2", 0b10010010),
    ("sth 3", 0b10010011),
    ("sth 4", 0b10010100),
    ("sth 5", 0b10010101),
    ("sth 6", 0b10010110),
    ("sth 7", 0b10010111),
    ("sth 8", 0b10011000),
    ("sth 9", 0b10011001),
    ("sth 10", 0b10011010),
    ("sth 11", 0b10011011),
    ("sth 12", 0b10011100),
    ("sth 13", 0b10011101),
    ("sth 14", 0b10011110),
    ("sth 15", 0b10011111),
    ("sth 0b0000", 0b10010000),
    ("sth 0b0001", 0b10010001),
    ("sth 0b0010", 0b10010010),
    ("sth 0b0011", 0b10010011),
    ("sth 0b0100", 0b10010100),
    ("sth 0b0101", 0b10010101),
    ("sth 0b0110", 0b10010110),
    ("sth 0b0111", 0b10010111),
    ("sth 0b1000", 0b10011000),
    ("sth 0b1001", 0b10011001),
    ("sth 0b1010", 0b10011010),
    ("sth 0b1011", 0b10011011),
    ("sth 0b1100", 0b10011100),
    ("sth 0b1101", 0b10011101),
    ("sth 0b1110", 0b10011110),
    ("sth 0b1111", 0b10011111),
    ("sdl 0", 0b10100000),
    ("sdl 1", 0b10100001),
    ("sdl 2", 0b10100010),
    ("sdl 3", 0b10100011),
    ("sdl 4", 0b10100100),
    ("sdl 5", 0b10100101),
    ("sdl 6", 0b10100110),
    ("sdl 7", 0b10100111),
    ("sdl 8", 0b10101000),
    ("sdl 9", 0b10101001),
    ("sdl 10", 0b10101010),
    ("sdl 11", 0b10101011),
    ("sdl 12", 0b10101100),
    ("sdl 13", 0b10101101),
    ("sdl 14", 0b10101110),
    ("sdl 15", 0b10101111),
    ("sdl 0b0000", 0b10100000),
    ("sdl 0b0001", 0b10100001),
    ("sdl 0b0010", 0b10100010),
    ("sdl 0b0011", 0b10100011),
    ("sdl 0b0100", 0b10100100),
    ("sdl 0b0101", 0b10100101),
    ("sdl 0b0110", 0b10100110),
    ("sdl 0b0111", 0b10100111),
    ("sdl 0b1000", 0b10101000),
    ("sdl 0b1001", 0b10101001),
    ("sdl 0b1010", 0b10101010),
    ("sdl 0b1011", 0b10101011),
    ("sdl 0b1100", 0b10101100),
    ("sdl 0b1101", 0b10101101),
    ("sdl 0b1110", 0b10101110),
    ("sdl 0b1111", 0b10101111),
    ("sdh 0", 0b10110000),
    ("sdh 1", 0b10110001),
    ("sdh 2", 0b10110010),
    ("sdh 3", 0b10110011),
    ("sdh 4", 0b10110100),
    ("sdh 5", 0b10110101),
    ("sdh 6", 0b10110110),
    ("sdh 7", 0b10110111),
    ("sdh 8", 0b10111000),
    ("sdh 9", 0b10111001),
    ("sdh 10", 0b10111010),
    ("sdh 11", 0b10111011),
    ("sdh 12", 0b10111100),
    ("sdh 13", 0b10111101),
    ("sdh 14", 0b10111110),
    ("sdh 15", 0b10111111),
    ("sdh 0b0000", 0b10110000),
    ("sdh 0b0001", 0b10110001),
    ("sdh 0b0010", 0b10110010),
    ("sdh 0b0011", 0b10110011),
    ("sdh 0b0100", 0b10110100),
    ("sdh 0b0101", 0b10110101),
    ("sdh 0b0110", 0b10110110),
    ("sdh 0b0111", 0b10110111),
    ("sdh 0b1000", 0b10111000),
    ("sdh 0b1001", 0b10111001),
    ("sdh 0b1010", 0b10111010),
    ("sdh 0b1011", 0b10111011),
    ("sdh 0b1100", 0b10111100),
    ("sdh 0b1101", 0b10111101),
    ("sdh 0b1110", 0b10111110),
    ("sdh 0b1111", 0b10111111),
    ("brvs", 0b11000000),
    ("jmp", 0b11000001),
    ("brcs", 0b11000010),
    ("brcc", 0b11000011),
    ("breq", 0b11000100),
    ("brne", 0b11000101),
    ("brns", 0b11000110),
    ("brnc", 0b11000111),
    ("ssr 0000", 0b11010000),
    ("ssr 0001", 0b11010001),
    ("ssr 0010", 0b11010010),
    ("ssr 0011", 0b11010011),
    ("ssr 0100", 0b11010100),
    ("ssr 0101", 0b11010101),
    ("ssr 0110", 0b11010110),
    ("ssr 0111", 0b11010111),
    ("ssr 1000", 0b11011000),
    ("ssr 1001", 0b11011001),
    ("ssr 1010", 0b11011010),
    ("ssr 1011", 0b11011011),
    ("ssr 1100", 0b11011100),
    ("ssr 1101", 0b11011101),
    ("ssr 1110", 0b11011110),
    ("ssr 1111", 0b11011111),
    ("mov r0 r0", 0b11100000),
    ("mov r0 r1", 0b11100010),
    ("mov r0 r2", 0b11100100),
    ("mov r0 r3", 0b11100110),
    ("mov r1 r0", 0b11101000),
    ("mov r1 r1", 0b11101010),
    ("mov r1 r2", 0b11101100),
    ("mov r1 r3", 0b11101110),
    ("mov r2 r0", 0b11110000),
    ("mov r2 r1", 0b11110010),
    ("mov r2 r2", 0b11110100),
    ("mov r2 r3", 0b11110110),
    ("mov r3 r0", 0b11111000),
    ("mov r3 r1", 0b11111010),
    ("mov r3 r2", 0b11111100),
    ("mov r3 r3", 0b11111110),
    ("mov pc r0", 0b11100001),
    ("mov pc r1", 0b11100011),
    ("mov pc r2", 0b11100101),
    ("mov pc r3", 0b11100111),
    ("mov adr r0", 0b11101001),
    ("mov adr r1", 0b11101011),
    ("mov adr r2", 0b11101101),
    ("mov adr r3", 0b11101111),
    ("mov sp r0", 0b11110001),
    ("mov sp r1", 0b11110011),
    ("mov sp r2", 0b11110101),
    ("mov sp r3", 0b11110111),
    ("mov sr r0", 0b11111001),
    ("mov sr r1", 0b11111011),
    ("mov sr r2", 0b11111101),
    ("mov sr r3", 0b11111111),
];

#[test]
fn full_table_v2() {
    for (line, expect) in TABLE_V2 {
        assert_eq!(
            encode(line.as_bytes(), IsaRevision::V2),
            Some(expect),
            "line `{line}`"
        );
    }
}

