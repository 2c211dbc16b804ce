//! Reading a dump of functions back: the parser reads the input that
//! `encode` gives for a function as that function.
use crate::color::{Color, Rgb};
use crate::charset::Charset;
use crate::dump::{ansi_mode_param, charset_final, csi, dec_mode_param, encode, encode_all, esc, joined, num, sgr_color_text, sgr_op_text, sgr_text};
use crate::function::{AnsiMode, CtcOp, DecMode, EdScope, ElScope, Function, SgrOp, TbcScope, XtwinopsOp};
use crate::param::param_text;
use crate::parser::{
    all_cleared, ansi_modes, dec_modes, input_code, inter_text, params_text, spec_ansi_mode, spec_csi_dispatch,
    spec_dec_mode, spec_esc_dispatch, spec_execute, Parser, State, PARAMS_LEN,
};
use crate::sgr::{opt_seq, sgr_decode, sgr_step};
use crate::text::decimal;
use crate::resume::{fed, is_digit, same_output, lemma_fed_step, lemma_params_chain, lemma_params_text_chars, lemma_params_text_fed};
use vstd::prelude::*;

verus! {

/// The parameters `active`, followed by cleared ones up to the full count.
pub open spec fn padded(active: Seq<Seq<u16>>) -> Seq<Seq<u16>> {
    active + Seq::new((PARAMS_LEN - active.len()) as nat, |i: int| seq![0u16])
}

/// The index of the last of the parameters `active` (the first when there
/// are none).
pub open spec fn last_index(active: Seq<Seq<u16>>) -> int {
    if active.len() == 0 { 0 } else { active.len() - 1 }
}

/// Parameters that a control sequence can carry: at most the full count,
/// each of one to six parts.
pub open spec fn params_fit(active: Seq<Seq<u16>>) -> bool {
    &&& active.len() <= PARAMS_LEN
    &&& forall|i: int| 0 <= i < active.len() ==> 1 <= (#[trigger] active[i]).len() <= 6
}

/// From the ground state, the control sequence with intermediate `inter`
/// (none, `?` or, without parameters, `!`), the parameters `active` and the
/// final character `fin`, found in the input at `a`, yields nothing until
/// its last character, which dispatches it with exactly those parameters
/// and returns to the ground state.
pub(crate) proof fn lemma_csi_read(
    ps: Seq<Parser>,
    input: Seq<char>,
    rs: Seq<Option<Function>>,
    a: int,
    inter: Option<char>,
    active: Seq<Seq<u16>>,
    fin: char,
)
    requires
        fed(ps, input, rs),
        forall|i: int| 0 <= i < ps.len() ==> (#[trigger] ps[i]).wf(),
        0 <= a,
        a + csi(inter_text(inter), params_text(active), fin).len() <= input.len(),
        input.subrange(a, a + csi(inter_text(inter), params_text(active), fin).len())
            == csi(inter_text(inter), params_text(active), fin),
        ps[a].state == State::Ground,
        inter is None || inter == Some('?') || (inter == Some('!') && active.len() == 0),
        params_fit(active),
        0x40 <= fin as u32 <= 0x7e,
    ensures
        ({
            let b = a + csi(inter_text(inter), params_text(active), fin).len();
            &&& ps[b].state == State::Ground
            &&& forall|j: int| a <= j < b - 1 ==> rs[j] is None
            &&& ps[b - 1].param_views() == padded(active)
            &&& ps[b - 1].cur() == last_index(active)
            &&& ps[b - 1].intermediate == inter
            &&& spec_csi_dispatch(padded(active), last_index(active), inter, fin as u32, rs[b - 1])
        }),
{
    let it = inter_text(inter);
    let t = params_text(active);
    let s = csi(it, t, fin);
    let n = s.len() as int;
    let b = a + n;
    let c = a + 2 + it.len();
    assert(n == 3 + it.len() + t.len());
    assert(input[a] == s[0]);
    assert(input[a + 1] == s[1]);
    lemma_fed_step(ps, input, rs, a);
    lemma_fed_step(ps, input, rs, a + 1);
    assert(all_cleared(ps[a + 2].param_views()));
    if it.len() > 0 {
        assert(input[a + 2] == s[2]);
        lemma_fed_step(ps, input, rs, a + 2);
    }
    let vs = ps[c].param_views();
    assert(all_cleared(vs));
    assert(ps[c].cur() == 0);
    assert(vs.len() == PARAMS_LEN) by {
        assert(ps[c].params@.len() == PARAMS_LEN);
    }
    if t.len() > 0 {
        assert(active.len() > 0);
        lemma_params_text_chars(active, true);
        assert forall|j: int| c <= j < c + t.len()
            implies #[trigger] is_digit(input[j]) || input[j] == ';' || input[j] == ':' by {
            assert(input[j] == s[j - a]);
            assert(s[j - a] == t[j - c]);
        }
        assert(input[c] == t[0]) by {
            assert(input[c] == s[c - a]);
        }
        lemma_params_chain(ps, input, rs, c, c + t.len(), false);
        assert(input.subrange(c, c + t.len()) == t) by {
            assert forall|j: int| 0 <= j < t.len() implies input.subrange(c, c + t.len())[j] == t[j] by {
                assert(input[c + j] == s[c + j - a]);
            }
        }
        lemma_params_text_fed(vs, active);
        assert(active + vs.skip(active.len() as int) =~= padded(active)) by {
            assert forall|i: int| active.len() <= i < PARAMS_LEN
                implies #[trigger] vs.skip(active.len() as int)[i - active.len()] == seq![0u16] by {
                assert(vs[i] == seq![0u16]);
            }
        }
    } else {
        assert(active.len() == 0) by {
            if active.len() > 0 {
                lemma_params_text_chars(active, true);
            }
        }
        assert(vs =~= padded(active)) by {
            assert forall|i: int| 0 <= i < PARAMS_LEN implies vs[i] == padded(active)[i] by {
                assert(vs[i] == seq![0u16]);
            }
        }
    }
    assert(input[b - 1] == s[n - 1]);
    lemma_fed_step(ps, input, rs, b - 1);
    assert forall|j: int| a <= j < b - 1 implies rs[j] is None by {
        if j >= c {
        } else if j == a || j == a + 1 {
        } else {
            lemma_fed_step(ps, input, rs, j);
        }
    }
}

/// The parameters that name the DEC private modes `ms`, one each.
pub open spec fn dec_params(ms: Seq<DecMode>) -> Seq<Seq<u16>> {
    ms.map_values(|m: DecMode| seq![dec_mode_param(m) as u16])
}

/// The parameters that name the ANSI modes `ms`, one each.
pub open spec fn ansi_params(ms: Seq<AnsiMode>) -> Seq<Seq<u16>> {
    ms.map_values(|m: AnsiMode| seq![ansi_mode_param(m) as u16])
}

/// The parts of the SGR parameter for a color, with `base` 30 for the
/// foreground and 40 for the background.
pub open spec fn color_parts(color: Color, base: u16) -> Seq<u16> {
    match color {
        Color::Indexed(c) => if c < 8 {
            seq![(base + c) as u16]
        } else if c < 16 {
            seq![(base + 52 + c) as u16]
        } else {
            seq![(base + 8) as u16, 5, c as u16]
        },
        Color::RGB(c) => seq![(base + 8) as u16, 2, c.r as u16, c.g as u16, c.b as u16],
    }
}

/// The parts of the SGR parameter for one graphic rendition change.
pub open spec fn op_parts(op: SgrOp) -> Seq<u16> {
    match op {
        SgrOp::Reset => seq![0],
        SgrOp::SetBoldIntensity => seq![1],
        SgrOp::SetFaintIntensity => seq![2],
        SgrOp::SetItalic => seq![3],
        SgrOp::SetUnderline => seq![4],
        SgrOp::SetBlink => seq![5],
        SgrOp::SetInverse => seq![7],
        SgrOp::SetStrikethrough => seq![9],
        SgrOp::ResetIntensity => seq![22],
        SgrOp::ResetItalic => seq![23],
        SgrOp::ResetUnderline => seq![24],
        SgrOp::ResetBlink => seq![25],
        SgrOp::ResetInverse => seq![27],
        SgrOp::ResetStrikethrough => seq![29],
        SgrOp::SetForegroundColor(c) => color_parts(c, 30),
        SgrOp::ResetForegroundColor => seq![39],
        SgrOp::SetBackgroundColor(c) => color_parts(c, 40),
        SgrOp::ResetBackgroundColor => seq![49],
    }
}

/// The parameters of the SGR sequence for `ops`: one per change, or
/// `38;2`, which changes nothing, for none.
pub open spec fn sgr_params(ops: Seq<SgrOp>) -> Seq<Seq<u16>> {
    if ops.len() == 0 {
        seq![seq![38u16], seq![2u16]]
    } else {
        ops.map_values(|op: SgrOp| op_parts(op))
    }
}

/// The text of parameters is the texts of each, joined by `;`.
proof fn lemma_params_joined(vs: Seq<Seq<u16>>)
    ensures
        params_text(vs) == joined(vs.map_values(|v: Seq<u16>| param_text(v))),
    decreases vs.len(),
{
    let ts = vs.map_values(|v: Seq<u16>| param_text(v));
    if vs.len() > 1 {
        lemma_params_joined(vs.drop_last());
        assert(ts.drop_last() == vs.drop_last().map_values(|v: Seq<u16>| param_text(v)));
    }
}

/// The text of single-part parameters is their decimal numbers, joined by `;`.
proof fn lemma_single_params_joined(vs: Seq<Seq<u16>>, ds: Seq<Seq<char>>)
    requires
        vs.len() == ds.len(),
        forall|i: int| 0 <= i < vs.len() ==> (#[trigger] vs[i]).len() == 1 && ds[i] == decimal(vs[i][0] as nat),
    ensures
        params_text(vs) == joined(ds),
{
    lemma_params_joined(vs);
    assert(vs.map_values(|v: Seq<u16>| param_text(v)) =~= ds);
}

/// The DEC private modes read from their parameters are those modes.
proof fn lemma_dec_modes_read(ms: Seq<DecMode>)
    ensures
        dec_modes(dec_params(ms)) == ms,
    decreases ms.len(),
{
    if ms.len() > 0 {
        lemma_dec_modes_read(ms.drop_last());
        assert(dec_params(ms).drop_last() == dec_params(ms.drop_last()));
        assert(spec_dec_mode(dec_params(ms).last()[0]) == Some(ms.last()));
    }
}

/// The ANSI modes read from their parameters are those modes.
proof fn lemma_ansi_modes_read(ms: Seq<AnsiMode>)
    ensures
        ansi_modes(ansi_params(ms)) == ms,
    decreases ms.len(),
{
    if ms.len() > 0 {
        lemma_ansi_modes_read(ms.drop_last());
        assert(ansi_params(ms).drop_last() == ansi_params(ms.drop_last()));
        assert(spec_ansi_mode(ansi_params(ms).last()[0]) == Some(ms.last()));
    }
}

/// The SGR text of a change is the text of its parameter.
proof fn lemma_op_text(op: SgrOp)
    ensures
        sgr_op_text(op) == param_text(op_parts(op)),
        1 <= op_parts(op).len() <= 6,
{
    reveal_with_fuel(decimal, 3);
    reveal_with_fuel(param_text, 6);
    match op {
        SgrOp::SetForegroundColor(c) => lemma_color_text(c, 30),
        SgrOp::SetBackgroundColor(c) => lemma_color_text(c, 40),
        _ => {},
    }
}

/// The SGR text of a color is the text of its parameter.
proof fn lemma_color_text(color: Color, base: u8)
    requires
        base == 30 || base == 40,
    ensures
        sgr_color_text(color, base) == param_text(color_parts(color, base as u16)),
        1 <= color_parts(color, base as u16).len() <= 6,
{
    reveal_with_fuel(param_text, 6);
    let b = base as u16;
    match color {
        Color::Indexed(c) => {
            if c >= 16 {
                let ps = color_parts(color, b);
                assert(ps.drop_last() == seq![(b + 8) as u16, 5u16]);
                assert(seq![(b + 8) as u16, 5u16].drop_last() == seq![(b + 8) as u16]);
                assert(sgr_color_text(color, base) =~= param_text(ps));
            }
        },
        Color::RGB(c) => {
            let ps = color_parts(color, b);
            assert(ps.drop_last() == seq![(b + 8) as u16, 2u16, c.r as u16, c.g as u16]);
            assert(ps.drop_last().drop_last() == seq![(b + 8) as u16, 2u16, c.r as u16]);
            assert(ps.drop_last().drop_last().drop_last() == seq![(b + 8) as u16, 2u16]);
            assert(ps.drop_last().drop_last().drop_last().drop_last() == seq![(b + 8) as u16]);
            assert(sgr_color_text(color, base) =~= param_text(ps));
        },
    }
}

/// The first step of decoding reads a change back from its parameter.
proof fn lemma_op_step(op: SgrOp, rest: Seq<Seq<u16>>)
    ensures
        sgr_step(seq![op_parts(op)] + rest) == (Some(op), 1int),
{
    let vs = seq![op_parts(op)] + rest;
    assert(vs[0] == op_parts(op));
    match op {
        SgrOp::SetForegroundColor(c) => {
            match c {
                Color::RGB(rgb) => {
                    assert(rgb == Rgb { r: rgb.r as u16 as u8, g: rgb.g as u16 as u8, b: rgb.b as u16 as u8 });
                },
                _ => {},
            }
        },
        SgrOp::SetBackgroundColor(c) => {
            match c {
                Color::RGB(rgb) => {
                    assert(rgb == Rgb { r: rgb.r as u16 as u8, g: rgb.g as u16 as u8, b: rgb.b as u16 as u8 });
                },
                _ => {},
            }
        },
        _ => {},
    }
}

/// Decoding the parameters of the SGR sequence for `ops` gives `ops`.
proof fn lemma_sgr_read(ops: Seq<SgrOp>)
    ensures
        sgr_decode(sgr_params(ops)) == ops,
    decreases ops.len(),
{
    if ops.len() == 0 {
        let vs = sgr_params(ops);
        assert(sgr_step(vs) == (None::<SgrOp>, 2int));
        assert(vs.skip(2).len() == 0);
        assert(sgr_decode(vs.skip(2)) == Seq::<SgrOp>::empty());
        assert(sgr_decode(vs) == opt_seq(None) + sgr_decode(vs.skip(2)));
    } else {
        let vs = sgr_params(ops);
        let rest = sgr_params(ops.skip(1));
        lemma_op_step(ops[0], vs.skip(1));
        assert(vs == seq![op_parts(ops[0])] + vs.skip(1));
        if ops.len() > 1 {
            lemma_sgr_read(ops.skip(1));
            assert(vs.skip(1) =~= rest);
            assert(ops =~= seq![ops[0]] + ops.skip(1));
            assert(sgr_decode(vs) == opt_seq(Some(ops[0])) + sgr_decode(vs.skip(1)));
        } else {
            assert(vs.skip(1).len() == 0);
            assert(sgr_decode(vs.skip(1)) == Seq::<SgrOp>::empty());
            assert(sgr_decode(vs) == opt_seq(Some(ops[0])) + sgr_decode(vs.skip(1)));
            assert(ops =~= seq![ops[0]]);
        }
    }
}

/// From the ground state, the escape sequence with intermediate `inter`
/// and final character `fin`, found in the input at `a`, yields nothing
/// until its last character, which dispatches it, and returns to the
/// ground state.
pub(crate) proof fn lemma_esc_read(
    ps: Seq<Parser>,
    input: Seq<char>,
    rs: Seq<Option<Function>>,
    a: int,
    inter: Option<char>,
    fin: char,
)
    requires
        fed(ps, input, rs),
        forall|i: int| 0 <= i < ps.len() ==> (#[trigger] ps[i]).wf(),
        0 <= a,
        a + esc(inter_text(inter), fin).len() <= input.len(),
        input.subrange(a, a + esc(inter_text(inter), fin).len()) == esc(inter_text(inter), fin),
        ps[a].state == State::Ground,
        match inter {
            None => 0x30 <= fin as u32 <= 0x4f || 0x60 <= fin as u32 <= 0x7e,
            Some(i) => 0x20 <= i as u32 <= 0x2f && 0x30 <= fin as u32 <= 0x7e,
        },
    ensures
        ({
            let b = a + esc(inter_text(inter), fin).len();
            &&& ps[b].state == State::Ground
            &&& forall|j: int| a <= j < b - 1 ==> rs[j] is None
            &&& rs[b - 1] == spec_esc_dispatch(inter, fin as u32)
        }),
{
    let s = esc(inter_text(inter), fin);
    let b = a + s.len();
    assert(input[a] == s[0]);
    lemma_fed_step(ps, input, rs, a);
    if inter is Some {
        assert(input[a + 1] == s[1]);
        lemma_fed_step(ps, input, rs, a + 1);
    }
    assert(input[b - 1] == s[s.len() - 1]);
    lemma_fed_step(ps, input, rs, b - 1);
}

/// A character that the parser prints in the ground state.
pub open spec fn printable(c: char) -> bool {
    (0x20 <= c as u32 <= 0x7f) || c as u32 >= 0xa0
}

/// The functions whose input the parser reads back as them: all but the
/// printing of a control character and lists of more modes or graphic
/// rendition changes than a sequence has parameters.
pub open spec fn readable(f: Function) -> bool {
    match f {
        Function::Print(c) => printable(c),
        Function::Sgr(ops) => ops@.len() <= PARAMS_LEN,
        Function::Sm(ms) => ms@.len() <= PARAMS_LEN,
        Function::Rm(ms) => ms@.len() <= PARAMS_LEN,
        Function::Decset(ms) => ms@.len() <= PARAMS_LEN,
        Function::Decrst(ms) => ms@.len() <= PARAMS_LEN,
        _ => true,
    }
}

/// The parameters of the control sequence that `encode` gives for `f`
/// (for the other functions, none).
pub open spec fn csi_params(f: Function) -> Seq<Seq<u16>> {
    match f {
        Function::Cbt(n) => seq![seq![n]],
        Function::Cha(n) => seq![seq![n]],
        Function::Cht(n) => seq![seq![n]],
        Function::Cnl(n) => seq![seq![n]],
        Function::Cpl(n) => seq![seq![n]],
        Function::Ctc(op) => seq![seq![match op {
            CtcOp::SetTab => 0u16,
            CtcOp::ClearCurrentColumn => 2u16,
            CtcOp::ClearAll => 5u16,
        }]],
        Function::Cub(n) => seq![seq![n]],
        Function::Cud(n) => seq![seq![n]],
        Function::Cuf(n) => seq![seq![n]],
        Function::Cup(r, c) => seq![seq![r], seq![c]],
        Function::Cuu(n) => seq![seq![n]],
        Function::Dch(n) => seq![seq![n]],
        Function::Decrst(ms) => dec_params(ms@),
        Function::Decset(ms) => dec_params(ms@),
        Function::Decstbm(t, b) => seq![seq![t], seq![b]],
        Function::Dl(n) => seq![seq![n]],
        Function::Ech(n) => seq![seq![n]],
        Function::Ed(scope) => seq![seq![match scope {
            EdScope::Below => 0u16,
            EdScope::Above => 1u16,
            EdScope::All => 2u16,
            EdScope::SavedLines => 3u16,
        }]],
        Function::El(scope) => seq![seq![match scope {
            ElScope::ToRight => 0u16,
            ElScope::ToLeft => 1u16,
            ElScope::All => 2u16,
        }]],
        Function::Ich(n) => seq![seq![n]],
        Function::Il(n) => seq![seq![n]],
        Function::Rep(n) => seq![seq![n]],
        Function::Rm(ms) => ansi_params(ms@),
        Function::Sd(n) => seq![seq![n]],
        Function::Sgr(ops) => sgr_params(ops@),
        Function::Sm(ms) => ansi_params(ms@),
        Function::Su(n) => seq![seq![n]],
        Function::Tbc(scope) => seq![seq![match scope {
            TbcScope::CurrentColumn => 0u16,
            TbcScope::All => 3u16,
        }]],
        Function::Vpa(n) => seq![seq![n]],
        Function::Vpr(n) => seq![seq![n]],
        Function::Xtwinops(XtwinopsOp::Resize(cols, rows)) => seq![seq![8u16], seq![rows], seq![cols]],
        _ => Seq::empty(),
    }
}

/// The final character of the control sequence that `encode` gives for
/// `f`, if it gives one.
pub open spec fn csi_final(f: Function) -> Option<char> {
    match f {
        Function::Cbt(_) => Some('Z'),
        Function::Cha(_) => Some('G'),
        Function::Cht(_) => Some('I'),
        Function::Cnl(_) => Some('E'),
        Function::Cpl(_) => Some('F'),
        Function::Ctc(_) => Some('W'),
        Function::Cub(_) => Some('D'),
        Function::Cud(_) => Some('B'),
        Function::Cuf(_) => Some('C'),
        Function::Cup(_, _) => Some('H'),
        Function::Cuu(_) => Some('A'),
        Function::Dch(_) => Some('P'),
        Function::Decrst(_) => Some('l'),
        Function::Decset(_) => Some('h'),
        Function::Decstbm(_, _) => Some('r'),
        Function::Decstr => Some('p'),
        Function::Dl(_) => Some('M'),
        Function::Ech(_) => Some('X'),
        Function::Ed(_) => Some('J'),
        Function::El(_) => Some('K'),
        Function::Ich(_) => Some('@'),
        Function::Il(_) => Some('L'),
        Function::Rep(_) => Some('b'),
        Function::Rm(_) => Some('l'),
        Function::Scorc => Some('u'),
        Function::Scosc => Some('s'),
        Function::Sd(_) => Some('T'),
        Function::Sgr(_) => Some('m'),
        Function::Sm(_) => Some('h'),
        Function::Su(_) => Some('S'),
        Function::Tbc(_) => Some('g'),
        Function::Vpa(_) => Some('d'),
        Function::Vpr(_) => Some('e'),
        Function::Xtwinops(_) => Some('t'),
        _ => None,
    }
}

/// The intermediate of the control sequence that `encode` gives for `f`.
pub open spec fn csi_inter(f: Function) -> Option<char> {
    match f {
        Function::Decrst(_) => Some('?'),
        Function::Decset(_) => Some('?'),
        Function::Decstr => Some('!'),
        _ => None,
    }
}

/// `encode` gives for a function with a frame the control sequence with
/// that frame and its parameters, which fit.
proof fn lemma_csi_encoding(f: Function)
    requires
        readable(f),
        csi_final(f) is Some,
    ensures
        encode(f) == csi(inter_text(csi_inter(f)), params_text(csi_params(f)), csi_final(f)->0),
        params_fit(csi_params(f)),
{
    reveal_with_fuel(decimal, 3);
    let e = Seq::<char>::empty();
    let vs = csi_params(f);
    match f {
        Function::Cup(r, c) => {
            assert(vs.drop_last() == seq![seq![r]]);
            assert(params_text(seq![seq![r]]) == num(r));
            assert(param_text(seq![c]) == num(c));
            assert(params_text(vs) == params_text(vs.drop_last()).push(';') + param_text(vs.last()));
            assert(params_text(vs) =~= num(r) + seq![';'] + num(c));
        },
        Function::Decstbm(t, b) => {
            assert(vs.drop_last() == seq![seq![t]]);
            assert(params_text(seq![seq![t]]) == num(t));
            assert(param_text(seq![b]) == num(b));
            assert(params_text(vs) == params_text(vs.drop_last()).push(';') + param_text(vs.last()));
            assert(params_text(vs) =~= num(t) + seq![';'] + num(b));
        },
        Function::Xtwinops(XtwinopsOp::Resize(cols, rows)) => {
            assert(vs.drop_last() == seq![seq![8u16], seq![rows]]);
            let v2 = vs.drop_last();
            assert(v2.drop_last() == seq![seq![8u16]]);
            assert(params_text(seq![seq![8u16]]) == seq!['8']);
            assert(param_text(seq![rows]) == num(rows));
            assert(param_text(seq![cols]) == num(cols));
            assert(params_text(v2) == params_text(v2.drop_last()).push(';') + param_text(v2.last()));
            assert(params_text(vs) == params_text(vs.drop_last()).push(';') + param_text(vs.last()));
            assert(params_text(vs) =~= seq!['8', ';'] + num(rows) + seq![';'] + num(cols));
        },
        Function::Decset(ms) => {
            let ds = ms@.map_values(|m: DecMode| decimal(dec_mode_param(m) as nat));
            lemma_single_params_joined(vs, ds);
        },
        Function::Decrst(ms) => {
            let ds = ms@.map_values(|m: DecMode| decimal(dec_mode_param(m) as nat));
            lemma_single_params_joined(vs, ds);
        },
        Function::Sm(ms) => {
            let ds = ms@.map_values(|m: AnsiMode| decimal(ansi_mode_param(m) as nat));
            lemma_single_params_joined(vs, ds);
        },
        Function::Rm(ms) => {
            let ds = ms@.map_values(|m: AnsiMode| decimal(ansi_mode_param(m) as nat));
            lemma_single_params_joined(vs, ds);
        },
        Function::Sgr(ops) => {
            if ops@.len() == 0 {
                assert(vs.drop_last() == seq![seq![38u16]]);
                assert(decimal(38) == seq!['3', '8']);
                assert(params_text(seq![seq![38u16]]) == seq!['3', '8']);
                assert(param_text(seq![2u16]) == seq!['2']);
                assert(params_text(vs) == params_text(vs.drop_last()).push(';') + param_text(vs.last()));
                assert(params_text(vs) =~= seq!['3', '8', ';', '2']);
            } else {
                lemma_params_joined(vs);
                let ts = vs.map_values(|v: Seq<u16>| param_text(v));
                assert forall|i: int| 0 <= i < ops@.len()
                    implies #[trigger] ts[i] == sgr_op_text(ops@[i]) && 1 <= vs[i].len() <= 6 by {
                    lemma_op_text(ops@[i]);
                }
                assert(ts =~= ops@.map_values(|op: SgrOp| sgr_op_text(op)));
            }
        },
        _ => {},
    }
}

/// The active parameters of a sequence with the parameters `active`.
proof fn lemma_padded_active(active: Seq<Seq<u16>>)
    requires
        active.len() <= PARAMS_LEN,
    ensures
        padded(active).len() == PARAMS_LEN,
        active.len() > 0 ==> padded(active).subrange(0, last_index(active) + 1) == active,
        active.len() == 0 ==> padded(active).subrange(0, last_index(active) + 1) == seq![seq![0u16]],
        forall|i: int| active.len() <= i < PARAMS_LEN ==> #[trigger] padded(active)[i] == seq![0u16],
{
    if active.len() > 0 {
        assert(padded(active).subrange(0, last_index(active) + 1) =~= active);
    } else {
        assert(padded(active).subrange(0, 1) =~= seq![seq![0u16]]);
    }
}

/// A control sequence that `encode` gives for `f`, dispatched with its
/// parameters, stands for `f`.
proof fn lemma_csi_dispatch_read(f: Function, r: Option<Function>)
    requires
        readable(f),
        csi_final(f) is Some,
        spec_csi_dispatch(padded(csi_params(f)), last_index(csi_params(f)), csi_inter(f), csi_final(f)->0 as u32, r),
    ensures
        same_output(r, Some(f)),
{
    let active = csi_params(f);
    lemma_padded_active(active);
    let vs = padded(active);
    let act = vs.subrange(0, last_index(active) + 1);
    match f {
        Function::Decset(ms) => {
            lemma_dec_modes_read(ms@);
            if ms@.len() == 0 {
                assert(dec_modes(act) == dec_modes(act.drop_last()));
                assert(act.drop_last().len() == 0);
            }
        },
        Function::Decrst(ms) => {
            lemma_dec_modes_read(ms@);
            if ms@.len() == 0 {
                assert(dec_modes(act) == dec_modes(act.drop_last()));
                assert(act.drop_last().len() == 0);
            }
        },
        Function::Sm(ms) => {
            lemma_ansi_modes_read(ms@);
            if ms@.len() == 0 {
                assert(ansi_modes(act) == ansi_modes(act.drop_last()));
                assert(act.drop_last().len() == 0);
            }
        },
        Function::Rm(ms) => {
            lemma_ansi_modes_read(ms@);
            if ms@.len() == 0 {
                assert(ansi_modes(act) == ansi_modes(act.drop_last()));
                assert(act.drop_last().len() == 0);
            }
        },
        Function::Sgr(ops) => {
            lemma_sgr_read(ops@);
        },
        Function::Cup(row, col) => {
            assert(vs[0] == seq![row] && vs[1] == seq![col]);
        },
        Function::Decstbm(t, b) => {
            assert(vs[0] == seq![t] && vs[1] == seq![b]);
        },
        Function::Xtwinops(XtwinopsOp::Resize(cols, rows)) => {
            assert(vs[0] == seq![8u16] && vs[1] == seq![rows] && vs[2] == seq![cols]);
        },
        _ => {
            if active.len() > 0 {
                assert(vs[0] == active[0]);
            }
        },
    }
}

/// From the ground state, the input that `encode` gives for a readable
/// function `f`, found in the input at `a`, yields nothing until its last
/// character, which yields `f`, and returns to the ground state.
pub(crate) proof fn lemma_function_read(ps: Seq<Parser>, input: Seq<char>, rs: Seq<Option<Function>>, a: int, f: Function)
    requires
        fed(ps, input, rs),
        forall|i: int| 0 <= i < ps.len() ==> (#[trigger] ps[i]).wf(),
        0 <= a,
        a + encode(f).len() <= input.len(),
        input.subrange(a, a + encode(f).len()) == encode(f),
        ps[a].state == State::Ground,
        readable(f),
    ensures
        encode(f).len() > 0,
        ps[a + encode(f).len()].state == State::Ground,
        forall|j: int| a <= j < a + encode(f).len() - 1 ==> rs[j] is None,
        same_output(rs[a + encode(f).len() - 1], Some(f)),
{
    let e = Seq::<char>::empty();
    if csi_final(f) is Some {
        lemma_csi_encoding(f);
        lemma_csi_read(ps, input, rs, a, csi_inter(f), csi_params(f), csi_final(f)->0);
        lemma_csi_dispatch_read(f, rs[a + encode(f).len() - 1]);
    } else {
        match f {
            Function::Decaln => lemma_esc_read(ps, input, rs, a, Some('#'), '8'),
            Function::Decrc => lemma_esc_read(ps, input, rs, a, None, '8'),
            Function::Decsc => lemma_esc_read(ps, input, rs, a, None, '7'),
            Function::G1d4(c) => lemma_esc_read(ps, input, rs, a, Some(')'), charset_final(c)),
            Function::Gzd4(c) => lemma_esc_read(ps, input, rs, a, Some('('), charset_final(c)),
            Function::Hts => lemma_esc_read(ps, input, rs, a, None, 'H'),
            Function::Nel => lemma_esc_read(ps, input, rs, a, None, 'E'),
            Function::Ri => lemma_esc_read(ps, input, rs, a, None, 'M'),
            Function::Ris => lemma_esc_read(ps, input, rs, a, None, 'c'),
            _ => {
                assert(input[a] == encode(f)[0]);
                lemma_fed_step(ps, input, rs, a);
            },
        }
    }
}

/// The functions among the outputs `rs`, in order.
pub open spec fn outputs(rs: Seq<Option<Function>>) -> Seq<Function>
    decreases rs.len(),
{
    if rs.len() == 0 {
        Seq::empty()
    } else {
        match rs.last() {
            Some(f) => outputs(rs.drop_last()).push(f),
            None => outputs(rs.drop_last()),
        }
    }
}

/// Two lists of functions that say the same, item by item.
pub open spec fn same_functions(a: Seq<Function>, b: Seq<Function>) -> bool {
    &&& a.len() == b.len()
    &&& forall|i: int| 0 <= i < a.len() ==> #[trigger] same_output(Some(a[i]), Some(b[i]))
}

/// Outputs that are all none add no function.
proof fn lemma_outputs_nones(rs: Seq<Option<Function>>, m: int, j: int)
    requires
        0 <= m <= j <= rs.len(),
        forall|k: int| m <= k < j ==> rs[k] is None,
    ensures
        outputs(rs.subrange(0, j)) == outputs(rs.subrange(0, m)),
    decreases j - m,
{
    if j > m {
        lemma_outputs_nones(rs, m, j - 1);
        assert(rs.subrange(0, j).drop_last() == rs.subrange(0, j - 1));
    }
}

/// Fed from the ground state an input that starts with the input for
/// readable functions `fs`, the parser yields them along it and is in the
/// ground state at its end.
proof fn lemma_prefix_read(ps: Seq<Parser>, input: Seq<char>, rs: Seq<Option<Function>>, fs: Seq<Function>)
    requires
        fed(ps, input, rs),
        forall|i: int| 0 <= i < ps.len() ==> (#[trigger] ps[i]).wf(),
        encode_all(fs).len() <= input.len(),
        input.subrange(0, encode_all(fs).len() as int) == encode_all(fs),
        ps[0].state == State::Ground,
        forall|i: int| 0 <= i < fs.len() ==> readable(#[trigger] fs[i]),
    ensures
        ps[encode_all(fs).len() as int].state == State::Ground,
        same_functions(outputs(rs.subrange(0, encode_all(fs).len() as int)), fs),
    decreases fs.len(),
{
    if fs.len() == 0 {
        assert(outputs(rs.subrange(0, 0)) == Seq::<Function>::empty());
    } else {
        let init = fs.drop_last();
        let f = fs.last();
        let m = encode_all(init).len() as int;
        let n = encode_all(fs).len() as int;
        assert(encode_all(fs) == encode_all(init) + encode(f));
        assert(input.subrange(0, m) == encode_all(init)) by {
            assert(input.subrange(0, m) =~= input.subrange(0, n).subrange(0, m));
        }
        assert forall|i: int| 0 <= i < init.len() implies readable(#[trigger] init[i]) by {
            assert(init[i] == fs[i]);
        }
        lemma_prefix_read(ps, input, rs, init);
        assert(input.subrange(m, n) == encode(f)) by {
            assert(input.subrange(m, n) =~= input.subrange(0, n).subrange(m, n));
        }
        assert(readable(f));
        lemma_function_read(ps, input, rs, m, f);
        lemma_outputs_nones(rs, m, n - 1);
        let g = rs[n - 1]->0;
        assert(rs.subrange(0, n).drop_last() == rs.subrange(0, n - 1));
        assert(rs.subrange(0, n).last() == rs[n - 1]);
        let out = outputs(rs.subrange(0, n));
        assert(out == outputs(rs.subrange(0, m)).push(g));
        assert forall|i: int| 0 <= i < fs.len() implies #[trigger] same_output(Some(out[i]), Some(fs[i])) by {
            if i < init.len() {
                assert(out[i] == outputs(rs.subrange(0, m))[i]);
                assert(same_output(Some(outputs(rs.subrange(0, m))[i]), Some(init[i])));
            }
        }
    }
}

/// The parser reads the input that a dump gives for readable functions
/// back as those functions: fed it from the ground state, it yields them
/// in order, each with the same parameters and lists, and ends in the
/// ground state.
pub proof fn lemma_dump_read(fs: Seq<Function>, ps: Seq<Parser>, rs: Seq<Option<Function>>)
    requires
        forall|i: int| 0 <= i < fs.len() ==> readable(#[trigger] fs[i]),
        fed(ps, encode_all(fs), rs),
        ps[0].state == State::Ground,
        forall|i: int| 0 <= i < ps.len() ==> (#[trigger] ps[i]).wf(),
    ensures
        same_functions(outputs(rs), fs),
        ps.last().state == State::Ground,
{
    let input = encode_all(fs);
    assert(input.subrange(0, input.len() as int) =~= input);
    lemma_prefix_read(ps, input, rs, fs);
    assert(rs.subrange(0, input.len() as int) =~= rs);
}

} // verus!
