use vstd::prelude::*;

verus! {

/// A character set that can be designated into the G0 or G1 slot.
#[derive(Debug, Copy, Clone, PartialEq, Eq, Structural)]
pub enum Charset {
    Ascii,
    Drawing,
}

/// The DEC special graphics glyph shown for the code `0x60 + i`, `i < 31`.
pub open spec fn spec_special_gfx(i: int) -> char {
    if i == 0 { '♦' }
    else if i == 1 { '▒' }
    else if i == 2 { '␉' }
    else if i == 3 { '␌' }
    else if i == 4 { '␍' }
    else if i == 5 { '␊' }
    else if i == 6 { '°' }
    else if i == 7 { '±' }
    else if i == 8 { '␤' }
    else if i == 9 { '␋' }
    else if i == 10 { '┘' }
    else if i == 11 { '┐' }
    else if i == 12 { '┌' }
    else if i == 13 { '└' }
    else if i == 14 { '┼' }
    else if i == 15 { '⎺' }
    else if i == 16 { '⎻' }
    else if i == 17 { '─' }
    else if i == 18 { '⎼' }
    else if i == 19 { '⎽' }
    else if i == 20 { '├' }
    else if i == 21 { '┤' }
    else if i == 22 { '┴' }
    else if i == 23 { '┬' }
    else if i == 24 { '│' }
    else if i == 25 { '≤' }
    else if i == 26 { '≥' }
    else if i == 27 { 'π' }
    else if i == 28 { '≠' }
    else if i == 29 { '£' }
    else { '⋅' }
}

/// What the drawing charset shows for an ASCII character `c`.
pub open spec fn spec_drawing(c: char) -> char {
    if 0x60 <= (c as u32) && (c as u32) < 0x7f { spec_special_gfx((c as u32) - 0x60) } else { c }
}

/// What `cs` shows for the character `c`.
pub open spec fn spec_translate(cs: Charset, c: char) -> char {
    if (c as u32) > 0x7f {
        c
    } else {
        match cs {
            Charset::Ascii => c,
            Charset::Drawing => spec_drawing(c),
        }
    }
}

/// The VT100 special graphics glyphs, as a table read the other way: the
/// position of glyph `g` in it (31 when it is none of them).
pub open spec fn special_gfx_index(g: char) -> int {
    if g == '♦' { 0 }
    else if g == '▒' { 1 }
    else if g == '␉' { 2 }
    else if g == '␌' { 3 }
    else if g == '␍' { 4 }
    else if g == '␊' { 5 }
    else if g == '°' { 6 }
    else if g == '±' { 7 }
    else if g == '␤' { 8 }
    else if g == '␋' { 9 }
    else if g == '┘' { 10 }
    else if g == '┐' { 11 }
    else if g == '┌' { 12 }
    else if g == '└' { 13 }
    else if g == '┼' { 14 }
    else if g == '⎺' { 15 }
    else if g == '⎻' { 16 }
    else if g == '─' { 17 }
    else if g == '⎼' { 18 }
    else if g == '⎽' { 19 }
    else if g == '├' { 20 }
    else if g == '┤' { 21 }
    else if g == '┴' { 22 }
    else if g == '┬' { 23 }
    else if g == '│' { 24 }
    else if g == '≤' { 25 }
    else if g == '≥' { 26 }
    else if g == 'π' { 27 }
    else if g == '≠' { 28 }
    else if g == '£' { 29 }
    else if g == '⋅' { 30 }
    else { 31 }
}

/// The drawing charset shows the VT100 special graphics: each of the codes
/// `0x60..0x7f` its own line-drawing or symbol glyph (`x` a vertical line,
/// `q` a horizontal one, `l`, `k`, `m`, `j` the corners, ...), no two of
/// them the same; every other ASCII character, and every character in the
/// ASCII charset or beyond ASCII, is shown as it is.
pub proof fn lemma_special_graphics()
    ensures
        spec_translate(Charset::Drawing, '`') == '♦',
        spec_translate(Charset::Drawing, 'a') == '▒',
        spec_translate(Charset::Drawing, 'b') == '␉',
        spec_translate(Charset::Drawing, 'c') == '␌',
        spec_translate(Charset::Drawing, 'd') == '␍',
        spec_translate(Charset::Drawing, 'e') == '␊',
        spec_translate(Charset::Drawing, 'f') == '°',
        spec_translate(Charset::Drawing, 'g') == '±',
        spec_translate(Charset::Drawing, 'h') == '␤',
        spec_translate(Charset::Drawing, 'i') == '␋',
        spec_translate(Charset::Drawing, 'j') == '┘',
        spec_translate(Charset::Drawing, 'k') == '┐',
        spec_translate(Charset::Drawing, 'l') == '┌',
        spec_translate(Charset::Drawing, 'm') == '└',
        spec_translate(Charset::Drawing, 'n') == '┼',
        spec_translate(Charset::Drawing, 'o') == '⎺',
        spec_translate(Charset::Drawing, 'p') == '⎻',
        spec_translate(Charset::Drawing, 'q') == '─',
        spec_translate(Charset::Drawing, 'r') == '⎼',
        spec_translate(Charset::Drawing, 's') == '⎽',
        spec_translate(Charset::Drawing, 't') == '├',
        spec_translate(Charset::Drawing, 'u') == '┤',
        spec_translate(Charset::Drawing, 'v') == '┴',
        spec_translate(Charset::Drawing, 'w') == '┬',
        spec_translate(Charset::Drawing, 'x') == '│',
        spec_translate(Charset::Drawing, 'y') == '≤',
        spec_translate(Charset::Drawing, 'z') == '≥',
        spec_translate(Charset::Drawing, '{') == 'π',
        spec_translate(Charset::Drawing, '|') == '≠',
        spec_translate(Charset::Drawing, '}') == '£',
        spec_translate(Charset::Drawing, '~') == '⋅',
        forall|c: char| !(0x60 <= (c as u32) < 0x7f) ==> #[trigger] spec_translate(Charset::Drawing, c) == c,
        forall|c: char| #[trigger] spec_translate(Charset::Ascii, c) == c,
        forall|c: char| 0x60 <= (c as u32) < 0x7f
            ==> special_gfx_index(#[trigger] spec_translate(Charset::Drawing, c)) == (c as u32) - 0x60,
        forall|c1: char, c2: char| 0x60 <= (c1 as u32) < 0x7f && 0x60 <= (c2 as u32) < 0x7f && (c1 as u32) != (c2 as u32)
            ==> #[trigger] spec_translate(Charset::Drawing, c1) != #[trigger] spec_translate(Charset::Drawing, c2),
{
    assert forall|i: int| 0 <= i < 31 implies #[trigger] special_gfx_index(spec_special_gfx(i)) == i by {
    }
    assert forall|c: char| 0x60 <= (c as u32) < 0x7f
        implies special_gfx_index(#[trigger] spec_translate(Charset::Drawing, c)) == (c as u32) - 0x60 by {
        let i: int = (c as u32) - 0x60int;
        assert(special_gfx_index(spec_special_gfx(i)) == i);
    }
}

fn special_gfx_char(i: u32) -> (r: char)
    requires
        i < 31,
    ensures
        r == spec_special_gfx(i as int),
{
    match i {
        0 => '♦',
        1 => '▒',
        2 => '␉',
        3 => '␌',
        4 => '␍',
        5 => '␊',
        6 => '°',
        7 => '±',
        8 => '␤',
        9 => '␋',
        10 => '┘',
        11 => '┐',
        12 => '┌',
        13 => '└',
        14 => '┼',
        15 => '⎺',
        16 => '⎻',
        17 => '─',
        18 => '⎼',
        19 => '⎽',
        20 => '├',
        21 => '┤',
        22 => '┴',
        23 => '┬',
        24 => '│',
        25 => '≤',
        26 => '≥',
        27 => 'π',
        28 => '≠',
        29 => '£',
        _ => '⋅',
    }
}

impl Charset {
    /// Maps `c` through this charset: non-ASCII input passes unchanged, and
    /// the drawing set replaces the codes `0x60..0x7f` with line-drawing glyphs.
    pub fn translate(self, c: char) -> (r: char)
        ensures
            r == spec_translate(self, c),
    {
        let code = c as u32;

        if code > 0x7f {
            return c;
        }

        match self {
            Charset::Ascii => c,
            Charset::Drawing => {
                if 0x60 <= code && code < 0x7f {
                    special_gfx_char(code - 0x60)
                } else {
                    c
                }
            }
        }
    }
}

} // verus!
