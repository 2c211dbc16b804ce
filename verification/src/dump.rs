use crate::charset::Charset;
use crate::color::Color;
use crate::function::{AnsiMode, CtcOp, DecMode, EdScope, ElScope, Function, SgrOp, TbcScope, XtwinopsOp};
use crate::text::{decimal, push_chars, push_decimal, string_from_chars};
use vstd::prelude::*;

verus! {

/// An escape sequence: ESC, the intermediate, the final character.
pub open spec fn esc(inter: Seq<char>, fin: char) -> Seq<char> {
    seq!['\u{1b}'] + inter + seq![fin]
}

/// A control sequence: ESC `[`, the intermediate, the parameters, the
/// final character.
pub open spec fn csi(inter: Seq<char>, params: Seq<char>, fin: char) -> Seq<char> {
    seq!['\u{1b}', '['] + inter + params + seq![fin]
}

/// The texts `ps`, separated by `;`.
pub open spec fn joined(ps: Seq<Seq<char>>) -> Seq<char>
    decreases ps.len(),
{
    if ps.len() == 0 {
        Seq::empty()
    } else if ps.len() == 1 {
        ps[0]
    } else {
        joined(ps.drop_last()) + seq![';'] + ps.last()
    }
}

/// The parameter that names a DEC private mode.
pub open spec fn dec_mode_param(m: DecMode) -> u32 {
    match m {
        DecMode::CursorKeys => 1,
        DecMode::Origin => 6,
        DecMode::AutoWrap => 7,
        DecMode::TextCursorEnable => 25,
        DecMode::AltScreenBuffer => 1047,
        DecMode::SaveCursor => 1048,
        DecMode::SaveCursorAltScreenBuffer => 1049,
    }
}

/// The parameter that names an ANSI mode.
pub open spec fn ansi_mode_param(m: AnsiMode) -> u32 {
    match m {
        AnsiMode::Insert => 4,
        AnsiMode::NewLine => 20,
    }
}

/// The SGR parameter text for a color, with `base` 30 for the foreground
/// and 40 for the background.
pub open spec fn sgr_color_text(color: Color, base: u8) -> Seq<char> {
    match color {
        Color::Indexed(c) => if c < 8 {
            decimal((base + c) as nat)
        } else if c < 16 {
            decimal((base + 52 + c) as nat)
        } else {
            decimal((base + 8) as nat) + seq![':', '5', ':'] + decimal(c as nat)
        },
        Color::RGB(c) => decimal((base + 8) as nat) + seq![':', '2', ':'] + decimal(c.r as nat) + seq![':']
            + decimal(c.g as nat) + seq![':'] + decimal(c.b as nat),
    }
}

/// The SGR parameter text for one graphic rendition change.
pub open spec fn sgr_op_text(op: SgrOp) -> Seq<char> {
    match op {
        SgrOp::Reset => seq!['0'],
        SgrOp::SetBoldIntensity => seq!['1'],
        SgrOp::SetFaintIntensity => seq!['2'],
        SgrOp::SetItalic => seq!['3'],
        SgrOp::SetUnderline => seq!['4'],
        SgrOp::SetBlink => seq!['5'],
        SgrOp::SetInverse => seq!['7'],
        SgrOp::SetStrikethrough => seq!['9'],
        SgrOp::ResetIntensity => seq!['2', '2'],
        SgrOp::ResetItalic => seq!['2', '3'],
        SgrOp::ResetUnderline => seq!['2', '4'],
        SgrOp::ResetBlink => seq!['2', '5'],
        SgrOp::ResetInverse => seq!['2', '7'],
        SgrOp::ResetStrikethrough => seq!['2', '9'],
        SgrOp::SetForegroundColor(c) => sgr_color_text(c, 30),
        SgrOp::ResetForegroundColor => seq!['3', '9'],
        SgrOp::SetBackgroundColor(c) => sgr_color_text(c, 40),
        SgrOp::ResetBackgroundColor => seq!['4', '9'],
    }
}

pub open spec fn num(n: u16) -> Seq<char> {
    decimal(n as nat)
}

pub open spec fn charset_final(c: Charset) -> char {
    match c {
        Charset::Drawing => '0',
        Charset::Ascii => 'B',
    }
}

/// The input that the parser reads as the graphic rendition changes `ops`.
pub open spec fn sgr_text(ops: Seq<SgrOp>) -> Seq<char> {
    if ops.len() == 0 {
        csi(Seq::empty(), seq!['3', '8', ';', '2'], 'm')
    } else {
        csi(Seq::empty(), joined(ops.map_values(|op: SgrOp| sgr_op_text(op))), 'm')
    }
}

/// The input that the parser reads as `fun`.
pub open spec fn encode(fun: Function) -> Seq<char> {
    let e = Seq::<char>::empty();
    match fun {
        Function::Bs => seq!['\u{08}'],
        Function::Cbt(n) => csi(e, num(n), 'Z'),
        Function::Cha(n) => csi(e, num(n), 'G'),
        Function::Cht(n) => csi(e, num(n), 'I'),
        Function::Cnl(n) => csi(e, num(n), 'E'),
        Function::Cpl(n) => csi(e, num(n), 'F'),
        Function::Cr => seq!['\r'],
        Function::Ctc(op) => csi(e, match op {
            CtcOp::SetTab => seq!['0'],
            CtcOp::ClearCurrentColumn => seq!['2'],
            CtcOp::ClearAll => seq!['5'],
        }, 'W'),
        Function::Cub(n) => csi(e, num(n), 'D'),
        Function::Cud(n) => csi(e, num(n), 'B'),
        Function::Cuf(n) => csi(e, num(n), 'C'),
        Function::Cup(r, c) => csi(e, num(r) + seq![';'] + num(c), 'H'),
        Function::Cuu(n) => csi(e, num(n), 'A'),
        Function::Dch(n) => csi(e, num(n), 'P'),
        Function::Decaln => esc(seq!['#'], '8'),
        Function::Decrc => esc(e, '8'),
        Function::Decrst(modes) => csi(seq!['?'], joined(modes@.map_values(|m: DecMode| decimal(dec_mode_param(m) as nat))), 'l'),
        Function::Decsc => esc(e, '7'),
        Function::Decset(modes) => csi(seq!['?'], joined(modes@.map_values(|m: DecMode| decimal(dec_mode_param(m) as nat))), 'h'),
        Function::Decstbm(t, b) => csi(e, num(t) + seq![';'] + num(b), 'r'),
        Function::Decstr => csi(seq!['!'], e, 'p'),
        Function::Dl(n) => csi(e, num(n), 'M'),
        Function::Ech(n) => csi(e, num(n), 'X'),
        Function::Ed(scope) => csi(e, match scope {
            EdScope::Below => seq!['0'],
            EdScope::Above => seq!['1'],
            EdScope::All => seq!['2'],
            EdScope::SavedLines => seq!['3'],
        }, 'J'),
        Function::El(scope) => csi(e, match scope {
            ElScope::ToRight => seq!['0'],
            ElScope::ToLeft => seq!['1'],
            ElScope::All => seq!['2'],
        }, 'K'),
        Function::G1d4(c) => esc(seq![')'], charset_final(c)),
        Function::Gzd4(c) => esc(seq!['('], charset_final(c)),
        Function::Ht => seq!['\t'],
        Function::Hts => esc(e, 'H'),
        Function::Ich(n) => csi(e, num(n), '@'),
        Function::Il(n) => csi(e, num(n), 'L'),
        Function::Lf => seq!['\n'],
        Function::Nel => esc(e, 'E'),
        Function::Print(ch) => seq![ch],
        Function::Rep(n) => csi(e, num(n), 'b'),
        Function::Ri => esc(e, 'M'),
        Function::Ris => esc(e, 'c'),
        Function::Rm(modes) => csi(e, joined(modes@.map_values(|m: AnsiMode| decimal(ansi_mode_param(m) as nat))), 'l'),
        Function::Scorc => csi(e, e, 'u'),
        Function::Scosc => csi(e, e, 's'),
        Function::Sd(n) => csi(e, num(n), 'T'),
        Function::Sgr(ops) => sgr_text(ops@),
        Function::Si => seq!['\u{0f}'],
        Function::Sm(modes) => csi(e, joined(modes@.map_values(|m: AnsiMode| decimal(ansi_mode_param(m) as nat))), 'h'),
        Function::So => seq!['\u{0e}'],
        Function::Su(n) => csi(e, num(n), 'S'),
        Function::Tbc(scope) => csi(e, match scope {
            TbcScope::CurrentColumn => seq!['0'],
            TbcScope::All => seq!['3'],
        }, 'g'),
        Function::Vpa(n) => csi(e, num(n), 'd'),
        Function::Vpr(n) => csi(e, num(n), 'e'),
        Function::Xtwinops(XtwinopsOp::Resize(cols, rows)) => csi(e, seq!['8', ';'] + num(rows) + seq![';'] + num(cols), 't'),
    }
}

/// The input that the parser reads as `funs`, in order.
pub open spec fn encode_all(funs: Seq<Function>) -> Seq<char>
    decreases funs.len(),
{
    if funs.len() == 0 {
        Seq::empty()
    } else {
        encode_all(funs.drop_last()) + encode(funs.last())
    }
}

fn push_esc(out: &mut Vec<char>, inter: Option<char>, fin: char)
    ensures
        final(out)@ == old(out)@ + esc(match inter { Some(c) => seq![c], None => Seq::empty() }, fin),
{
    out.push('\u{1b}');
    match inter {
        Some(c) => out.push(c),
        None => {},
    }
    out.push(fin);
    assert(out@ =~= old(out)@ + esc(match inter { Some(c) => seq![c], None => Seq::empty() }, fin));
}

/// Appends a control sequence whose parameters `params` are already joined.
fn push_csi(out: &mut Vec<char>, inter: Option<char>, params: &[char], fin: char)
    ensures
        final(out)@ == old(out)@ + csi(match inter { Some(c) => seq![c], None => Seq::empty() }, params@, fin),
{
    out.push('\u{1b}');
    out.push('[');
    match inter {
        Some(c) => out.push(c),
        None => {},
    }
    push_chars(out, params);
    out.push(fin);
    assert(out@ =~= old(out)@ + csi(match inter { Some(c) => seq![c], None => Seq::empty() }, params@, fin));
}

fn num_text(n: u16) -> (v: Vec<char>)
    ensures
        v@ == num(n),
{
    let mut v: Vec<char> = Vec::new();
    push_decimal(&mut v, n as u32);
    assert(v@ =~= num(n));
    v
}

fn push_csi_num(out: &mut Vec<char>, n: u16, fin: char)
    ensures
        final(out)@ == old(out)@ + csi(Seq::empty(), num(n), fin),
{
    let v = num_text(n);
    push_csi(out, None, v.as_slice(), fin);
}

fn push_csi_nums(out: &mut Vec<char>, a: u16, b: u16, fin: char)
    ensures
        final(out)@ == old(out)@ + csi(Seq::empty(), num(a) + seq![';'] + num(b), fin),
{
    let mut v = num_text(a);
    v.push(';');
    push_decimal(&mut v, b as u32);
    assert(v@ =~= num(a) + seq![';'] + num(b));
    push_csi(out, None, v.as_slice(), fin);
}

/// Appends the SGR parameter text for `color`.
fn push_sgr_color(out: &mut Vec<char>, color: Color, base: u8)
    requires
        base == 30 || base == 40,
    ensures
        final(out)@ == old(out)@ + sgr_color_text(color, base),
{
    match color {
        Color::Indexed(c) => {
            if c < 8 {
                push_decimal(out, (base + c) as u32);
            } else if c < 16 {
                push_decimal(out, (base + 52 + c) as u32);
            } else {
                push_decimal(out, (base + 8) as u32);
                out.push(':');
                out.push('5');
                out.push(':');
                push_decimal(out, c as u32);
            }
        },
        Color::RGB(c) => {
            push_decimal(out, (base + 8) as u32);
            out.push(':');
            out.push('2');
            out.push(':');
            push_decimal(out, c.r as u32);
            out.push(':');
            push_decimal(out, c.g as u32);
            out.push(':');
            push_decimal(out, c.b as u32);
        },
    }
    assert(out@ =~= old(out)@ + sgr_color_text(color, base));
}

/// The SGR parameter text for `color`, with `base` 30 for the foreground
/// and 40 for the background.
pub fn dump_sgr_color(color: Color, base: u8) -> (s: String)
    requires
        base == 30 || base == 40,
    ensures
        s@ == sgr_color_text(color, base),
{
    let mut v: Vec<char> = Vec::new();
    push_sgr_color(&mut v, color, base);
    assert(v@ =~= sgr_color_text(color, base));
    string_from_chars(v.as_slice())
}

fn push_sgr_op(out: &mut Vec<char>, op: SgrOp)
    ensures
        final(out)@ == old(out)@ + sgr_op_text(op),
{
    let ghost start = out@;
    match op {
        SgrOp::Reset => out.push('0'),
        SgrOp::SetBoldIntensity => out.push('1'),
        SgrOp::SetFaintIntensity => out.push('2'),
        SgrOp::SetItalic => out.push('3'),
        SgrOp::SetUnderline => out.push('4'),
        SgrOp::SetBlink => out.push('5'),
        SgrOp::SetInverse => out.push('7'),
        SgrOp::SetStrikethrough => out.push('9'),
        SgrOp::ResetIntensity => { out.push('2'); out.push('2'); },
        SgrOp::ResetItalic => { out.push('2'); out.push('3'); },
        SgrOp::ResetUnderline => { out.push('2'); out.push('4'); },
        SgrOp::ResetBlink => { out.push('2'); out.push('5'); },
        SgrOp::ResetInverse => { out.push('2'); out.push('7'); },
        SgrOp::ResetStrikethrough => { out.push('2'); out.push('9'); },
        SgrOp::SetForegroundColor(c) => push_sgr_color(out, c, 30),
        SgrOp::ResetForegroundColor => { out.push('3'); out.push('9'); },
        SgrOp::SetBackgroundColor(c) => push_sgr_color(out, c, 40),
        SgrOp::ResetBackgroundColor => { out.push('4'); out.push('9'); },
    }
    assert(out@ =~= start + sgr_op_text(op));
}

fn sgr_params(ops: &[SgrOp]) -> (v: Vec<char>)
    ensures
        v@ == joined(ops@.map_values(|op: SgrOp| sgr_op_text(op))),
{
    let ghost ps = ops@.map_values(|op: SgrOp| sgr_op_text(op));
    let mut v: Vec<char> = Vec::new();
    let mut i: usize = 0;
    while i < ops.len()
        invariant
            i <= ops@.len(),
            ps == ops@.map_values(|op: SgrOp| sgr_op_text(op)),
            v@ == joined(ps.take(i as int)),
        decreases ops@.len() - i,
    {
        if i > 0 {
            v.push(';');
        }
        push_sgr_op(&mut v, ops[i]);
        proof {
            let t = ps.take(i + 1);
            assert(t.drop_last() =~= ps.take(i as int));
            assert(t.last() == sgr_op_text(ops@[i as int]));
        }
        i += 1;
    }
    assert(ps.take(i as int) =~= ps);
    v
}

fn dec_mode_params(modes: &[DecMode]) -> (v: Vec<char>)
    ensures
        v@ == joined(modes@.map_values(|m: DecMode| decimal(dec_mode_param(m) as nat))),
{
    let ghost ps = modes@.map_values(|m: DecMode| decimal(dec_mode_param(m) as nat));
    let mut v: Vec<char> = Vec::new();
    let mut i: usize = 0;
    while i < modes.len()
        invariant
            i <= modes@.len(),
            ps == modes@.map_values(|m: DecMode| decimal(dec_mode_param(m) as nat)),
            v@ == joined(ps.take(i as int)),
        decreases modes@.len() - i,
    {
        if i > 0 {
            v.push(';');
        }
        let n: u32 = match modes[i] {
            DecMode::CursorKeys => 1,
            DecMode::Origin => 6,
            DecMode::AutoWrap => 7,
            DecMode::TextCursorEnable => 25,
            DecMode::AltScreenBuffer => 1047,
            DecMode::SaveCursor => 1048,
            DecMode::SaveCursorAltScreenBuffer => 1049,
        };
        push_decimal(&mut v, n);
        proof {
            let t = ps.take(i + 1);
            assert(t.drop_last() =~= ps.take(i as int));
        }
        i += 1;
    }
    assert(ps.take(i as int) =~= ps);
    v
}

fn ansi_mode_params(modes: &[AnsiMode]) -> (v: Vec<char>)
    ensures
        v@ == joined(modes@.map_values(|m: AnsiMode| decimal(ansi_mode_param(m) as nat))),
{
    let ghost ps = modes@.map_values(|m: AnsiMode| decimal(ansi_mode_param(m) as nat));
    let mut v: Vec<char> = Vec::new();
    let mut i: usize = 0;
    while i < modes.len()
        invariant
            i <= modes@.len(),
            ps == modes@.map_values(|m: AnsiMode| decimal(ansi_mode_param(m) as nat)),
            v@ == joined(ps.take(i as int)),
        decreases modes@.len() - i,
    {
        if i > 0 {
            v.push(';');
        }
        let n: u32 = match modes[i] {
            AnsiMode::Insert => 4,
            AnsiMode::NewLine => 20,
        };
        push_decimal(&mut v, n);
        proof {
            let t = ps.take(i + 1);
            assert(t.drop_last() =~= ps.take(i as int));
        }
        i += 1;
    }
    assert(ps.take(i as int) =~= ps);
    v
}

/// Appends the input that the parser reads as `fun`.
pub fn dump_function(out: &mut Vec<char>, fun: &Function)
    ensures
        final(out)@ == old(out)@ + encode(*fun),
{
    let ghost start = out@;
    match fun {
        Function::Bs => out.push('\u{08}'),
        Function::Cbt(n) => push_csi_num(out, *n, 'Z'),
        Function::Cha(n) => push_csi_num(out, *n, 'G'),
        Function::Cht(n) => push_csi_num(out, *n, 'I'),
        Function::Cnl(n) => push_csi_num(out, *n, 'E'),
        Function::Cpl(n) => push_csi_num(out, *n, 'F'),
        Function::Cr => out.push('\r'),
        Function::Ctc(op) => {
            let p: u16 = match op {
                CtcOp::SetTab => 0,
                CtcOp::ClearCurrentColumn => 2,
                CtcOp::ClearAll => 5,
            };
            push_csi_num(out, p, 'W');
        },
        Function::Cub(n) => push_csi_num(out, *n, 'D'),
        Function::Cud(n) => push_csi_num(out, *n, 'B'),
        Function::Cuf(n) => push_csi_num(out, *n, 'C'),
        Function::Cup(row, col) => push_csi_nums(out, *row, *col, 'H'),
        Function::Cuu(n) => push_csi_num(out, *n, 'A'),
        Function::Dch(n) => push_csi_num(out, *n, 'P'),
        Function::Decaln => push_esc(out, Some('#'), '8'),
        Function::Decrc => push_esc(out, None, '8'),
        Function::Decrst(modes) => {
            let v = dec_mode_params(modes.as_slice());
            push_csi(out, Some('?'), v.as_slice(), 'l');
        },
        Function::Decsc => push_esc(out, None, '7'),
        Function::Decset(modes) => {
            let v = dec_mode_params(modes.as_slice());
            push_csi(out, Some('?'), v.as_slice(), 'h');
        },
        Function::Decstbm(top, bottom) => push_csi_nums(out, *top, *bottom, 'r'),
        Function::Decstr => push_csi(out, Some('!'), &[], 'p'),
        Function::Dl(n) => push_csi_num(out, *n, 'M'),
        Function::Ech(n) => push_csi_num(out, *n, 'X'),
        Function::Ed(scope) => {
            let p: u16 = match scope {
                EdScope::Below => 0,
                EdScope::Above => 1,
                EdScope::All => 2,
                EdScope::SavedLines => 3,
            };
            push_csi_num(out, p, 'J');
        },
        Function::El(scope) => {
            let p: u16 = match scope {
                ElScope::ToRight => 0,
                ElScope::ToLeft => 1,
                ElScope::All => 2,
            };
            push_csi_num(out, p, 'K');
        },
        Function::G1d4(charset) => {
            let c = match charset {
                Charset::Drawing => '0',
                Charset::Ascii => 'B',
            };
            push_esc(out, Some(')'), c);
        },
        Function::Gzd4(charset) => {
            let c = match charset {
                Charset::Drawing => '0',
                Charset::Ascii => 'B',
            };
            push_esc(out, Some('('), c);
        },
        Function::Ht => out.push('\t'),
        Function::Hts => push_esc(out, None, 'H'),
        Function::Ich(n) => push_csi_num(out, *n, '@'),
        Function::Il(n) => push_csi_num(out, *n, 'L'),
        Function::Lf => out.push('\n'),
        Function::Nel => push_esc(out, None, 'E'),
        Function::Print(ch) => out.push(*ch),
        Function::Rep(n) => push_csi_num(out, *n, 'b'),
        Function::Ri => push_esc(out, None, 'M'),
        Function::Ris => push_esc(out, None, 'c'),
        Function::Rm(modes) => {
            let v = ansi_mode_params(modes.as_slice());
            push_csi(out, None, v.as_slice(), 'l');
        },
        Function::Scorc => push_csi(out, None, &[], 'u'),
        Function::Scosc => push_csi(out, None, &[], 's'),
        Function::Sd(n) => push_csi_num(out, *n, 'T'),
        Function::Sgr(ops) => {
            if ops.is_empty() {
                push_csi(out, None, &['3', '8', ';', '2'], 'm');
            } else {
                let v = sgr_params(ops.as_slice());
                push_csi(out, None, v.as_slice(), 'm');
            }
        },
        Function::Si => out.push('\u{0f}'),
        Function::Sm(modes) => {
            let v = ansi_mode_params(modes.as_slice());
            push_csi(out, None, v.as_slice(), 'h');
        },
        Function::So => out.push('\u{0e}'),
        Function::Su(n) => push_csi_num(out, *n, 'S'),
        Function::Tbc(scope) => {
            let p: u16 = match scope {
                TbcScope::CurrentColumn => 0,
                TbcScope::All => 3,
            };
            push_csi_num(out, p, 'g');
        },
        Function::Vpa(n) => push_csi_num(out, *n, 'd'),
        Function::Vpr(n) => push_csi_num(out, *n, 'e'),
        Function::Xtwinops(XtwinopsOp::Resize(cols, rows)) => {
            let mut v: Vec<char> = Vec::new();
            v.push('8');
            v.push(';');
            push_decimal(&mut v, *rows as u32);
            v.push(';');
            push_decimal(&mut v, *cols as u32);
            assert(v@ =~= seq!['8', ';'] + num(*rows) + seq![';'] + num(*cols));
            push_csi(out, None, v.as_slice(), 't');
        },
    }
    assert(out@ =~= start + encode(*fun));
}

/// The input that the parser reads as `funs`, in order.
pub fn dump(funs: &[Function]) -> (s: String)
    ensures
        s@ == encode_all(funs@),
{
    let mut out: Vec<char> = Vec::new();
    let mut i: usize = 0;
    while i < funs.len()
        invariant
            i <= funs@.len(),
            out@ == encode_all(funs@.take(i as int)),
        decreases funs@.len() - i,
    {
        dump_function(&mut out, &funs[i]);
        assert(funs@.take(i + 1).drop_last() =~= funs@.take(i as int));
        i += 1;
    }
    assert(funs@.take(i as int) =~= funs@);
    string_from_chars(out.as_slice())
}

} // verus!
