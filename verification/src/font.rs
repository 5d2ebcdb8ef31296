use vstd::prelude::*;

verus! {

/// The built-in glyph table: sixteen 5-byte bitmaps, one per hexadecimal
/// digit, installed at addresses 0..=79 on every reset. The font-address
/// opcode points the index register at glyph `d` via `d * 5`.
pub open spec fn font_seq() -> Seq<u8> {
    seq![
        0xF0u8, 0x90, 0x90, 0x90, 0xF0, // 0
        0x20, 0x60, 0x20, 0x20, 0x70, // 1
        0xF0, 0x10, 0xF0, 0x80, 0xF0, // 2
        0xF0, 0x10, 0xF0, 0x10, 0xF0, // 3
        0x90, 0x90, 0xF0, 0x10, 0x10, // 4
        0xF0, 0x80, 0xF0, 0x10, 0xF0, // 5
        0xF0, 0x80, 0xF0, 0x90, 0xF0, // 6
        0xF0, 0x10, 0x20, 0x40, 0x40, // 7
        0xF0, 0x90, 0xF0, 0x90, 0xF0, // 8
        0xF0, 0x90, 0xF0, 0x10, 0xF0, // 9
        0xF0, 0x90, 0xF0, 0x90, 0x90, // A
        0xE0, 0x90, 0xE0, 0x90, 0xE0, // B
        0xF0, 0x80, 0x80, 0x80, 0xF0, // C
        0xE0, 0x90, 0x90, 0x90, 0xE0, // D
        0xF0, 0x80, 0xF0, 0x80, 0xF0, // E
        0xF0, 0x80, 0xF0, 0x80, 0x80, // F
    ]
}

/// The glyph table as a byte vector, for installing into memory.
pub fn font_set() -> (v: Vec<u8>)
    ensures
        v@ == font_seq(),
        v@.len() == 80,
{
    let mut v: Vec<u8> = Vec::new();
    v.push(0xF0); v.push(0x90); v.push(0x90); v.push(0x90); v.push(0xF0);
    v.push(0x20); v.push(0x60); v.push(0x20); v.push(0x20); v.push(0x70);
    v.push(0xF0); v.push(0x10); v.push(0xF0); v.push(0x80); v.push(0xF0);
    v.push(0xF0); v.push(0x10); v.push(0xF0); v.push(0x10); v.push(0xF0);
    v.push(0x90); v.push(0x90); v.push(0xF0); v.push(0x10); v.push(0x10);
    v.push(0xF0); v.push(0x80); v.push(0xF0); v.push(0x10); v.push(0xF0);
    v.push(0xF0); v.push(0x80); v.push(0xF0); v.push(0x90); v.push(0xF0);
    v.push(0xF0); v.push(0x10); v.push(0x20); v.push(0x40); v.push(0x40);
    v.push(0xF0); v.push(0x90); v.push(0xF0); v.push(0x90); v.push(0xF0);
    v.push(0xF0); v.push(0x90); v.push(0xF0); v.push(0x10); v.push(0xF0);
    v.push(0xF0); v.push(0x90); v.push(0xF0); v.push(0x90); v.push(0x90);
    v.push(0xE0); v.push(0x90); v.push(0xE0); v.push(0x90); v.push(0xE0);
    v.push(0xF0); v.push(0x80); v.push(0x80); v.push(0x80); v.push(0xF0);
    v.push(0xE0); v.push(0x90); v.push(0x90); v.push(0x90); v.push(0xE0);
    v.push(0xF0); v.push(0x80); v.push(0xF0); v.push(0x80); v.push(0xF0);
    v.push(0xF0); v.push(0x80); v.push(0xF0); v.push(0x80); v.push(0x80);
    proof {
        assert(v@ =~= font_seq());
    }
    v
}

} // verus!
