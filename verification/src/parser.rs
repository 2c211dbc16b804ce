//! The escape-sequence parser, after Paul Williams' state diagram for
//! ANSI-compatible video terminals.

use crate::charset::Charset;
use crate::function::{AnsiMode, CtcOp, DecMode, EdScope, ElScope, Function, TbcScope, XtwinopsOp};
use crate::param::{param_text, Param};
use crate::sgr::{all_wf, decode_sgr, sgr_decode, views};
use crate::text::string_from_chars;
use vstd::prelude::*;

verus! {

pub const PARAMS_LEN: usize = 32;

/// The states of the parser.
#[derive(Debug, Copy, Clone, PartialEq, Eq, Structural)]
pub enum State {
    Ground,
    Escape,
    EscapeIntermediate,
    CsiEntry,
    CsiParam,
    CsiIntermediate,
    CsiIgnore,
    DcsEntry,
    DcsParam,
    DcsIntermediate,
    DcsPassthrough,
    DcsIgnore,
    OscString,
    SosPmApcString,
}

/// What the parser does with an input character, besides changing state.
#[derive(Debug, Copy, Clone, PartialEq, Eq, Structural)]
pub enum Action {
    Ignore,
    Print,
    Param,
    Clear,
    CsiDispatch,
    Execute,
    Collect,
    EscDispatch,
    Put,
    OscPut,
}

/// A parser of terminal input, fed one character at a time.
#[derive(Debug)]
pub struct Parser {
    pub state: State,
    pub params: Vec<Param>,
    pub cur_param: usize,
    pub intermediate: Option<char>,
}

/// The code the transition table sees for an input character: characters
/// from U+00A0 on behave like `A`.
pub open spec fn input_code(c: char) -> u32 {
    if (c as u32) >= 0xa0 { 0x41 } else { c as u32 }
}

pub open spec fn in_range(c: u32, lo: u32, hi: u32) -> bool {
    lo <= c && c <= hi
}

/// C0 controls other than CAN (0x18), SUB (0x1a) and ESC (0x1b).
pub open spec fn is_c0(c: u32) -> bool {
    c <= 0x17 || c == 0x19 || in_range(c, 0x1c, 0x1f)
}

/// The transition table: the next state and the action, for a state and the
/// code of an input character (see `input_code`).
pub open spec fn spec_transition(s: State, c: u32) -> (State, Action) {
    if s == State::Ground && in_range(c, 0x20, 0x7f) {
        (s, Action::Print)
    } else if s == State::CsiParam && in_range(c, 0x30, 0x3b) {
        (s, Action::Param)
    } else if c == 0x1b {
        (State::Escape, Action::Clear)
    } else if s == State::Escape && c == 0x5b {
        (State::CsiEntry, Action::Clear)
    } else if (s == State::CsiParam || s == State::CsiEntry || s == State::CsiIntermediate) && in_range(c, 0x40, 0x7e) {
        (State::Ground, Action::CsiDispatch)
    } else if s == State::CsiEntry && (in_range(c, 0x30, 0x39) || c == 0x3b) {
        (State::CsiParam, Action::Param)
    } else if s == State::Ground && is_c0(c) {
        (s, Action::Execute)
    } else if s == State::OscString && in_range(c, 0x20, 0x7f) {
        (s, Action::OscPut)
    } else if s == State::Escape && in_range(c, 0x20, 0x2f) {
        (State::EscapeIntermediate, Action::Collect)
    } else if (s == State::EscapeIntermediate && in_range(c, 0x30, 0x7e)) || (s == State::Escape && (in_range(c, 0x30, 0x4f)
        || in_range(c, 0x51, 0x57) || c == 0x59 || c == 0x5a || c == 0x5c || in_range(c, 0x60, 0x7e))) {
        (State::Ground, Action::EscDispatch)
    } else if s == State::CsiEntry && in_range(c, 0x3c, 0x3f) {
        (State::CsiParam, Action::Collect)
    } else if s == State::DcsPassthrough && (c <= 0x17 || c == 0x19 || in_range(c, 0x1c, 0x7e)) {
        (s, Action::Put)
    } else if s == State::CsiIgnore && in_range(c, 0x40, 0x7e) {
        (State::Ground, Action::Ignore)
    } else if (s == State::CsiParam && in_range(c, 0x3c, 0x3f)) || (s == State::CsiIntermediate && in_range(c, 0x30, 0x3f))
        || (s == State::CsiEntry && c == 0x3a) {
        (State::CsiIgnore, Action::Ignore)
    } else if s == State::Escape && c == 0x5d {
        (State::OscString, Action::Ignore)
    } else if s == State::OscString && c == 0x07 {
        (State::Ground, Action::Ignore)
    } else if c == 0x18 || c == 0x1a || in_range(c, 0x80, 0x8f) || in_range(c, 0x91, 0x97) || c == 0x99
        || c == 0x9a {
        (State::Ground, Action::Execute)
    } else if s == State::Escape && c == 0x50 {
        (State::DcsEntry, Action::Clear)
    } else if (s == State::CsiParam || s == State::CsiEntry) && in_range(c, 0x20, 0x2f) {
        (State::CsiIntermediate, Action::Collect)
    } else if s == State::DcsParam && (in_range(c, 0x30, 0x39) || c == 0x3b) {
        (s, Action::Param)
    } else if s == State::DcsEntry && in_range(c, 0x3c, 0x3f) {
        (State::DcsParam, Action::Collect)
    } else if (s == State::DcsEntry || s == State::DcsParam || s == State::DcsIntermediate) && in_range(c, 0x40, 0x7e) {
        (State::DcsPassthrough, Action::Ignore)
    } else if (s == State::DcsEntry || s == State::DcsParam) && in_range(c, 0x20, 0x2f) {
        (State::DcsIntermediate, Action::Collect)
    } else if (s == State::CsiIntermediate || s == State::EscapeIntermediate || s == State::DcsIntermediate) && in_range(c, 0x20, 0x2f) {
        (s, Action::Collect)
    } else if (s == State::DcsEntry && c == 0x3a) || (s == State::DcsIntermediate && in_range(c, 0x30, 0x3f))
        || (s == State::DcsParam && c == 0x3a) || (s == State::DcsParam && in_range(c, 0x3c, 0x3f)) {
        (State::DcsIgnore, Action::Ignore)
    } else if s == State::DcsEntry && (in_range(c, 0x30, 0x39) || c == 0x3b) {
        (State::DcsParam, Action::Param)
    } else if (s == State::Escape || s == State::EscapeIntermediate || s == State::CsiEntry || s == State::CsiParam || s == State::CsiIntermediate
        || s == State::CsiIgnore) && is_c0(c) {
        (s, Action::Execute)
    } else if s == State::Escape && (c == 0x58 || c == 0x5e || c == 0x5f) {
        (State::SosPmApcString, Action::Ignore)
    } else if c == 0x98 || c == 0x9e || c == 0x9f {
        (State::SosPmApcString, Action::Ignore)
    } else if c == 0x9c {
        (State::Ground, Action::Ignore)
    } else if c == 0x9d {
        (State::OscString, Action::Ignore)
    } else if c == 0x90 {
        (State::DcsEntry, Action::Clear)
    } else if c == 0x9b {
        (State::CsiEntry, Action::Clear)
    } else {
        (s, Action::Ignore)
    }
}

fn transition(s: State, c: u32) -> (r: (State, Action))
    ensures
        r == spec_transition(s, c),
{
    let c0 = c <= 0x17 || c == 0x19 || (0x1c <= c && c <= 0x1f);
    if s == State::Ground && 0x20 <= c && c <= 0x7f {
        (s, Action::Print)
    } else if s == State::CsiParam && 0x30 <= c && c <= 0x3b {
        (s, Action::Param)
    } else if c == 0x1b {
        (State::Escape, Action::Clear)
    } else if s == State::Escape && c == 0x5b {
        (State::CsiEntry, Action::Clear)
    } else if (s == State::CsiParam || s == State::CsiEntry || s == State::CsiIntermediate) && 0x40 <= c && c <= 0x7e {
        (State::Ground, Action::CsiDispatch)
    } else if s == State::CsiEntry && ((0x30 <= c && c <= 0x39) || c == 0x3b) {
        (State::CsiParam, Action::Param)
    } else if s == State::Ground && c0 {
        (s, Action::Execute)
    } else if s == State::OscString && 0x20 <= c && c <= 0x7f {
        (s, Action::OscPut)
    } else if s == State::Escape && 0x20 <= c && c <= 0x2f {
        (State::EscapeIntermediate, Action::Collect)
    } else if (s == State::EscapeIntermediate && 0x30 <= c && c <= 0x7e) || (s == State::Escape && ((0x30 <= c && c <= 0x4f)
        || (0x51 <= c && c <= 0x57) || c == 0x59 || c == 0x5a || c == 0x5c || (0x60 <= c && c <= 0x7e))) {
        (State::Ground, Action::EscDispatch)
    } else if s == State::CsiEntry && 0x3c <= c && c <= 0x3f {
        (State::CsiParam, Action::Collect)
    } else if s == State::DcsPassthrough && (c <= 0x17 || c == 0x19 || (0x1c <= c && c <= 0x7e)) {
        (s, Action::Put)
    } else if s == State::CsiIgnore && 0x40 <= c && c <= 0x7e {
        (State::Ground, Action::Ignore)
    } else if (s == State::CsiParam && 0x3c <= c && c <= 0x3f) || (s == State::CsiIntermediate && 0x30 <= c && c <= 0x3f)
        || (s == State::CsiEntry && c == 0x3a) {
        (State::CsiIgnore, Action::Ignore)
    } else if s == State::Escape && c == 0x5d {
        (State::OscString, Action::Ignore)
    } else if s == State::OscString && c == 0x07 {
        (State::Ground, Action::Ignore)
    } else if c == 0x18 || c == 0x1a || (0x80 <= c && c <= 0x8f) || (0x91 <= c && c <= 0x97) || c == 0x99
        || c == 0x9a {
        (State::Ground, Action::Execute)
    } else if s == State::Escape && c == 0x50 {
        (State::DcsEntry, Action::Clear)
    } else if (s == State::CsiParam || s == State::CsiEntry) && 0x20 <= c && c <= 0x2f {
        (State::CsiIntermediate, Action::Collect)
    } else if s == State::DcsParam && ((0x30 <= c && c <= 0x39) || c == 0x3b) {
        (s, Action::Param)
    } else if s == State::DcsEntry && 0x3c <= c && c <= 0x3f {
        (State::DcsParam, Action::Collect)
    } else if (s == State::DcsEntry || s == State::DcsParam || s == State::DcsIntermediate) && 0x40 <= c && c <= 0x7e {
        (State::DcsPassthrough, Action::Ignore)
    } else if (s == State::DcsEntry || s == State::DcsParam) && 0x20 <= c && c <= 0x2f {
        (State::DcsIntermediate, Action::Collect)
    } else if (s == State::CsiIntermediate || s == State::EscapeIntermediate || s == State::DcsIntermediate) && 0x20 <= c && c <= 0x2f {
        (s, Action::Collect)
    } else if (s == State::DcsEntry && c == 0x3a) || (s == State::DcsIntermediate && 0x30 <= c && c <= 0x3f)
        || (s == State::DcsParam && c == 0x3a) || (s == State::DcsParam && 0x3c <= c && c <= 0x3f) {
        (State::DcsIgnore, Action::Ignore)
    } else if s == State::DcsEntry && ((0x30 <= c && c <= 0x39) || c == 0x3b) {
        (State::DcsParam, Action::Param)
    } else if (s == State::Escape || s == State::EscapeIntermediate || s == State::CsiEntry || s == State::CsiParam || s == State::CsiIntermediate
        || s == State::CsiIgnore) && c0 {
        (s, Action::Execute)
    } else if s == State::Escape && (c == 0x58 || c == 0x5e || c == 0x5f) {
        (State::SosPmApcString, Action::Ignore)
    } else if c == 0x98 || c == 0x9e || c == 0x9f {
        (State::SosPmApcString, Action::Ignore)
    } else if c == 0x9c {
        (State::Ground, Action::Ignore)
    } else if c == 0x9d {
        (State::OscString, Action::Ignore)
    } else if c == 0x90 {
        (State::DcsEntry, Action::Clear)
    } else if c == 0x9b {
        (State::CsiEntry, Action::Clear)
    } else {
        (s, Action::Ignore)
    }
}

/// The function a control character stands for, if any.
pub open spec fn spec_execute(c: u32) -> Option<Function> {
    if c == 0x08 { Some(Function::Bs) }
    else if c == 0x09 { Some(Function::Ht) }
    else if c == 0x0a || c == 0x0b || c == 0x0c { Some(Function::Lf) }
    else if c == 0x0d { Some(Function::Cr) }
    else if c == 0x0e { Some(Function::So) }
    else if c == 0x0f { Some(Function::Si) }
    else if c == 0x84 { Some(Function::Lf) }
    else if c == 0x85 { Some(Function::Nel) }
    else if c == 0x88 { Some(Function::Hts) }
    else if c == 0x8d { Some(Function::Ri) }
    else { None }
}

/// The function an escape sequence with intermediate `inter` and final
/// character code `c` stands for, if any.
pub open spec fn spec_esc_dispatch(inter: Option<char>, c: u32) -> Option<Function> {
    match inter {
        None => {
            if in_range(c, 0x40, 0x5f) { spec_execute((c + 0x40) as u32) }
            else if c == 0x37 { Some(Function::Decsc) }
            else if c == 0x38 { Some(Function::Decrc) }
            else if c == 0x63 { Some(Function::Ris) }
            else { None }
        },
        Some(i) => {
            if i == '#' && c == 0x38 { Some(Function::Decaln) }
            else if i == '(' { Some(Function::Gzd4(if c == 0x30 { Charset::Drawing } else { Charset::Ascii })) }
            else if i == ')' { Some(Function::G1d4(if c == 0x30 { Charset::Drawing } else { Charset::Ascii })) }
            else { None }
        },
    }
}

pub open spec fn spec_ansi_mode(n: u16) -> Option<AnsiMode> {
    if n == 4 { Some(AnsiMode::Insert) }
    else if n == 20 { Some(AnsiMode::NewLine) }
    else { None }
}

pub open spec fn spec_dec_mode(n: u16) -> Option<DecMode> {
    if n == 1 { Some(DecMode::CursorKeys) }
    else if n == 6 { Some(DecMode::Origin) }
    else if n == 7 { Some(DecMode::AutoWrap) }
    else if n == 25 { Some(DecMode::TextCursorEnable) }
    else if n == 47 || n == 1047 { Some(DecMode::AltScreenBuffer) }
    else if n == 1048 { Some(DecMode::SaveCursor) }
    else if n == 1049 { Some(DecMode::SaveCursorAltScreenBuffer) }
    else { None }
}

/// The ANSI modes that the parameters (by their first parts) name, in
/// order; unknown numbers are skipped.
pub open spec fn ansi_modes(vs: Seq<Seq<u16>>) -> Seq<AnsiMode>
    decreases vs.len(),
{
    if vs.len() == 0 {
        Seq::empty()
    } else {
        match spec_ansi_mode(vs.last()[0]) {
            Some(m) => ansi_modes(vs.drop_last()).push(m),
            None => ansi_modes(vs.drop_last()),
        }
    }
}

/// The DEC private modes that the parameters (by their first parts) name, in
/// order; unknown numbers are skipped.
pub open spec fn dec_modes(vs: Seq<Seq<u16>>) -> Seq<DecMode>
    decreases vs.len(),
{
    if vs.len() == 0 {
        Seq::empty()
    } else {
        match spec_dec_mode(vs.last()[0]) {
            Some(m) => dec_modes(vs.drop_last()).push(m),
            None => dec_modes(vs.drop_last()),
        }
    }
}

pub open spec fn code(c: char) -> u32 {
    c as u32
}

/// What a control sequence with parameters `vs` (all 32 of them; those
/// after the current one are `0`), current parameter `cur`, intermediate
/// `inter` and final character code `c` stands for: `r` is that function,
/// or `None` for an unsupported sequence.
pub open spec fn spec_csi_dispatch(vs: Seq<Seq<u16>>, cur: int, inter: Option<char>, c: u32, r: Option<Function>) -> bool {
    let n0 = vs[0][0];
    let n1 = vs[1][0];
    let n2 = vs[2][0];
    let active = vs.subrange(0, cur + 1);
    match inter {
        None => {
            if c == code('@') { r == Some(Function::Ich(n0)) }
            else if c == code('A') { r == Some(Function::Cuu(n0)) }
            else if c == code('B') { r == Some(Function::Cud(n0)) }
            else if c == code('C') { r == Some(Function::Cuf(n0)) }
            else if c == code('D') { r == Some(Function::Cub(n0)) }
            else if c == code('E') { r == Some(Function::Cnl(n0)) }
            else if c == code('F') { r == Some(Function::Cpl(n0)) }
            else if c == code('G') { r == Some(Function::Cha(n0)) }
            else if c == code('H') { r == Some(Function::Cup(n0, n1)) }
            else if c == code('I') { r == Some(Function::Cht(n0)) }
            else if c == code('J') {
                r == (if n0 == 0 { Some(Function::Ed(EdScope::Below)) }
                    else if n0 == 1 { Some(Function::Ed(EdScope::Above)) }
                    else if n0 == 2 { Some(Function::Ed(EdScope::All)) }
                    else if n0 == 3 { Some(Function::Ed(EdScope::SavedLines)) }
                    else { None })
            }
            else if c == code('K') {
                r == (if n0 == 0 { Some(Function::El(ElScope::ToRight)) }
                    else if n0 == 1 { Some(Function::El(ElScope::ToLeft)) }
                    else if n0 == 2 { Some(Function::El(ElScope::All)) }
                    else { None })
            }
            else if c == code('L') { r == Some(Function::Il(n0)) }
            else if c == code('M') { r == Some(Function::Dl(n0)) }
            else if c == code('P') { r == Some(Function::Dch(n0)) }
            else if c == code('S') { r == Some(Function::Su(n0)) }
            else if c == code('T') { r == Some(Function::Sd(n0)) }
            else if c == code('W') {
                r == (if n0 == 0 { Some(Function::Ctc(CtcOp::SetTab)) }
                    else if n0 == 2 { Some(Function::Ctc(CtcOp::ClearCurrentColumn)) }
                    else if n0 == 5 { Some(Function::Ctc(CtcOp::ClearAll)) }
                    else { None })
            }
            else if c == code('X') { r == Some(Function::Ech(n0)) }
            else if c == code('Z') { r == Some(Function::Cbt(n0)) }
            else if c == code('`') { r == Some(Function::Cha(n0)) }
            else if c == code('a') { r == Some(Function::Cuf(n0)) }
            else if c == code('b') { r == Some(Function::Rep(n0)) }
            else if c == code('d') { r == Some(Function::Vpa(n0)) }
            else if c == code('e') { r == Some(Function::Vpr(n0)) }
            else if c == code('f') { r == Some(Function::Cup(n0, n1)) }
            else if c == code('g') {
                r == (if n0 == 0 { Some(Function::Tbc(TbcScope::CurrentColumn)) }
                    else if n0 == 3 { Some(Function::Tbc(TbcScope::All)) }
                    else { None })
            }
            else if c == code('h') { r matches Some(Function::Sm(m)) && m@ == ansi_modes(active) }
            else if c == code('l') { r matches Some(Function::Rm(m)) && m@ == ansi_modes(active) }
            else if c == code('m') { r matches Some(Function::Sgr(ops)) && ops@ == sgr_decode(active) }
            else if c == code('r') { r == Some(Function::Decstbm(n0, n1)) }
            else if c == code('s') { r == Some(Function::Scosc) }
            else if c == code('t') {
                r == (if n0 == 8 { Some(Function::Xtwinops(XtwinopsOp::Resize(n2, n1))) } else { None })
            }
            else if c == code('u') { r == Some(Function::Scorc) }
            else { r is None }
        },
        Some(i) => {
            if i == '!' && c == code('p') { r == Some(Function::Decstr) }
            else if i == '?' && c == code('h') { r matches Some(Function::Decset(m)) && m@ == dec_modes(active) }
            else if i == '?' && c == code('l') { r matches Some(Function::Decrst(m)) && m@ == dec_modes(active) }
            else { r is None }
        },
    }
}

/// Parameters cleared to the single part `0`.
pub open spec fn all_cleared(vs: Seq<Seq<u16>>) -> bool {
    forall|i: int| 0 <= i < vs.len() ==> #[trigger] vs[i] == seq![0u16]
}

/// The parameters after feeding the parameter character `c` (a digit, `:`
/// or `;`) with current parameter `cur`: the new views and current index.
pub open spec fn spec_param(vs: Seq<Seq<u16>>, cur: int, c: u32) -> (Seq<Seq<u16>>, int) {
    if c == code(';') {
        (vs, if cur + 1 == PARAMS_LEN { cur } else { cur + 1 })
    } else if c == code(':') {
        (vs.update(cur, if vs[cur].len() < 6 { vs[cur].push(0) } else { vs[cur] }), cur)
    } else {
        let p = vs[cur];
        (vs.update(cur, p.update(p.len() - 1, crate::param::append_digit(p.last(), (c - 0x30) as u8))), cur)
    }
}

/// Whether `post` and `pre` hold the same parameters and intermediate.
pub open spec fn same_params(pre: Parser, post: Parser) -> bool {
    &&& post.param_views() == pre.param_views()
    &&& post.cur() == pre.cur()
    &&& post.intermediate == pre.intermediate
}

/// Feeding `input` to the parser `pre` leaves it as `post` and yields `r`:
/// the state follows the transition table, the action updates the
/// parameters, and a dispatch yields the function the sequence stands for.
pub open spec fn spec_feed(pre: Parser, input: char, post: Parser, r: Option<Function>) -> bool {
    let (next, action) = spec_transition(pre.state, input_code(input));
    &&& post.state == next
    &&& match action {
        Action::Param => {
            &&& (post.param_views(), post.cur()) == spec_param(pre.param_views(), pre.cur(), input as u32)
            &&& post.intermediate == pre.intermediate
            &&& r is None
        },
        Action::Clear => {
            &&& all_cleared(post.param_views())
            &&& post.cur() == 0
            &&& post.intermediate is None
            &&& r is None
        },
        Action::Collect => {
            &&& post.param_views() == pre.param_views()
            &&& post.cur() == pre.cur()
            &&& post.intermediate == Some(input)
            &&& r is None
        },
        Action::Print => same_params(pre, post) && r == Some(Function::Print(input)),
        Action::Execute => same_params(pre, post) && r == spec_execute(input as u32),
        Action::EscDispatch => same_params(pre, post) && r == spec_esc_dispatch(pre.intermediate, input as u32),
        Action::CsiDispatch => {
            &&& same_params(pre, post)
            &&& spec_csi_dispatch(pre.param_views(), pre.cur(), pre.intermediate, input as u32, r)
        },
        _ => same_params(pre, post) && r is None,
    }
}

/// The parameters' texts, separated by `;`.
pub open spec fn params_text(vs: Seq<Seq<u16>>) -> Seq<char>
    decreases vs.len(),
{
    if vs.len() == 0 {
        Seq::empty()
    } else if vs.len() == 1 {
        param_text(vs[0])
    } else {
        params_text(vs.drop_last()).push(';') + param_text(vs.last())
    }
}

pub open spec fn inter_text(i: Option<char>) -> Seq<char> {
    match i {
        Some(c) => seq![c],
        None => Seq::empty(),
    }
}

/// The input that brings a fresh parser into the state of `p`: the
/// sequence introducer (in its 8-bit form), the intermediate and the
/// parameters collected so far.
pub open spec fn spec_parser_dump(p: Parser) -> Seq<char> {
    let inter = inter_text(p.intermediate);
    let active = p.param_views().subrange(0, p.cur() + 1);
    match p.state {
        State::Ground => Seq::empty(),
        State::Escape => seq!['\u{1b}'],
        State::EscapeIntermediate => seq!['\u{1b}'] + inter,
        State::CsiEntry => seq!['\u{9b}'],
        State::CsiParam => seq!['\u{9b}'] + inter + params_text(active),
        State::CsiIntermediate => seq!['\u{9b}'] + inter,
        State::CsiIgnore => seq!['\u{9b}', ':'],
        State::DcsEntry => seq!['\u{90}'],
        State::DcsIntermediate => seq!['\u{90}'] + inter,
        State::DcsParam => seq!['\u{90}'] + inter + params_text(active),
        State::DcsPassthrough => seq!['\u{90}'] + inter + seq!['@'],
        State::DcsIgnore => seq!['\u{90}', ':'],
        State::OscString => seq!['\u{9d}'],
        State::SosPmApcString => seq!['\u{98}'],
    }
}

/// The ANSI mode a parameter names, if any.
pub fn ansi_mode(param: &Param) -> (m: Option<AnsiMode>)
    ensures
        m == spec_ansi_mode(param.parts@[0]),
{
    let n = param.as_u16();
    if n == 4 {
        Some(AnsiMode::Insert)
    } else if n == 20 {
        Some(AnsiMode::NewLine)
    } else {
        None
    }
}

/// The DEC private mode a parameter names, if any.
pub fn dec_mode(param: &Param) -> (m: Option<DecMode>)
    ensures
        m == spec_dec_mode(param.parts@[0]),
{
    let n = param.as_u16();
    if n == 1 {
        Some(DecMode::CursorKeys)
    } else if n == 6 {
        Some(DecMode::Origin)
    } else if n == 7 {
        Some(DecMode::AutoWrap)
    } else if n == 25 {
        Some(DecMode::TextCursorEnable)
    } else if n == 47 || n == 1047 {
        Some(DecMode::AltScreenBuffer)
    } else if n == 1048 {
        Some(DecMode::SaveCursor)
    } else if n == 1049 {
        Some(DecMode::SaveCursorAltScreenBuffer)
    } else {
        None
    }
}

/// Whether the intermediate `i` is of the kind the state `s` holds: none
/// right after an escape and at the start of a sequence, a character from the space to `/` in the
/// intermediate states, a private marker (`<` to `?`) if any among the
/// parameters, either in a device control string's data.
pub open spec fn inter_fits(s: State, i: Option<char>) -> bool {
    if s == State::Escape || s == State::CsiEntry || s == State::DcsEntry {
        i is None
    } else if s == State::EscapeIntermediate || s == State::CsiIntermediate || s == State::DcsIntermediate {
        i matches Some(c) && in_range(c as u32, 0x20, 0x2f)
    } else if s == State::CsiParam || s == State::DcsParam {
        i matches Some(c) ==> in_range(c as u32, 0x3c, 0x3f)
    } else if s == State::DcsPassthrough {
        i matches Some(c) ==> in_range(c as u32, 0x20, 0x2f) || in_range(c as u32, 0x3c, 0x3f)
    } else {
        true
    }
}

impl Parser {
    /// The parameter list is complete and well formed, and the parameters
    /// after the current one are cleared.
    pub open spec fn wf(&self) -> bool {
        &&& self.params@.len() == PARAMS_LEN
        &&& self.cur_param < PARAMS_LEN
        &&& all_wf(self.params@)
        &&& forall|i: int| self.cur_param < i < PARAMS_LEN ==> #[trigger] self.params@[i]@ == seq![0u16]
    }

    /// The parts of all 32 parameters.
    pub open spec fn param_views(&self) -> Seq<Seq<u16>> {
        views(self.params@)
    }

    pub open spec fn cur(&self) -> int {
        self.cur_param as int
    }

    pub open spec fn inter(&self) -> Option<char> {
        self.intermediate
    }

    /// A parser that its dump brings back: well formed, its intermediate
    /// of the kind its state holds, its parameters cleared at the start of
    /// a sequence, and each parameter of a device control string a single
    /// number.
    pub open spec fn resumable(&self) -> bool {
        &&& self.wf()
        &&& inter_fits(self.state, self.intermediate)
        &&& (self.state == State::CsiEntry || self.state == State::DcsEntry) ==> all_cleared(self.param_views()) && self.cur() == 0
        &&& self.state == State::DcsParam ==> forall|i: int| 0 <= i < PARAMS_LEN ==> (#[trigger] self.param_views()[i]).len() == 1
    }

    /// A fresh parser: ground state, no parameters, no intermediate.
    pub open spec fn is_fresh(&self) -> bool {
        &&& self.wf()
        &&& self.state == State::Ground
        &&& all_cleared(self.param_views())
        &&& self.cur() == 0
        &&& self.inter() is None
    }

    pub fn new() -> (p: Self)
        ensures
            p.is_fresh(),
            p.resumable(),
    {
        let mut params: Vec<Param> = Vec::new();
        let mut i: usize = 0;
        while i < PARAMS_LEN
            invariant
                i <= PARAMS_LEN,
                params@.len() == i,
                forall|k: int| 0 <= k < i ==> #[trigger] params@[k].wf(),
                forall|k: int| 0 <= k < i ==> #[trigger] params@[k]@ == seq![0u16],
            decreases PARAMS_LEN - i,
        {
            params.push(Param::new(0));
            i += 1;
        }
        let p = Parser { state: State::Ground, params, cur_param: 0, intermediate: None };
        assert(p.param_views().len() == PARAMS_LEN);
        assert(forall|k: int| 0 <= k < PARAMS_LEN ==> #[trigger] p.param_views()[k] == p.params@[k]@);
        assert(all_cleared(p.param_views()));
        assert(all_wf(p.params@));
        p
    }

    fn execute(&self, input: char) -> (r: Option<Function>)
        ensures
            r == spec_execute(input as u32),
    {
        let c = input as u32;
        if c == 0x08 { Some(Function::Bs) }
        else if c == 0x09 { Some(Function::Ht) }
        else if c == 0x0a || c == 0x0b || c == 0x0c { Some(Function::Lf) }
        else if c == 0x0d { Some(Function::Cr) }
        else if c == 0x0e { Some(Function::So) }
        else if c == 0x0f { Some(Function::Si) }
        else if c == 0x84 { Some(Function::Lf) }
        else if c == 0x85 { Some(Function::Nel) }
        else if c == 0x88 { Some(Function::Hts) }
        else if c == 0x8d { Some(Function::Ri) }
        else { None }
    }

    fn exec_code(&self, c: u32) -> (r: Option<Function>)
        ensures
            r == spec_execute(c),
    {
        if c == 0x08 { Some(Function::Bs) }
        else if c == 0x09 { Some(Function::Ht) }
        else if c == 0x0a || c == 0x0b || c == 0x0c { Some(Function::Lf) }
        else if c == 0x0d { Some(Function::Cr) }
        else if c == 0x0e { Some(Function::So) }
        else if c == 0x0f { Some(Function::Si) }
        else if c == 0x84 { Some(Function::Lf) }
        else if c == 0x85 { Some(Function::Nel) }
        else if c == 0x88 { Some(Function::Hts) }
        else if c == 0x8d { Some(Function::Ri) }
        else { None }
    }

    /// Clears the parameters and the intermediate.
    fn clear(&mut self)
        requires
            old(self).wf(),
        ensures
            final(self).wf(),
            final(self).state == old(self).state,
            all_cleared(final(self).param_views()),
            final(self).cur() == 0,
            final(self).inter() is None,
    {
        let mut i: usize = 0;
        while i <= self.cur_param
            invariant
                self.params@.len() == PARAMS_LEN,
                self.cur_param < PARAMS_LEN,
                self.state == old(self).state,
                i <= self.cur_param + 1,
                all_wf(self.params@),
                forall|k: int| 0 <= k < i ==> #[trigger] self.params@[k]@ == seq![0u16],
                forall|k: int| self.cur_param < k < PARAMS_LEN ==> #[trigger] self.params@[k]@ == seq![0u16],
            decreases self.cur_param + 1 - i,
        {
            let mut p = self.params[i];
            p.clear();
            self.params.set(i, p);
            i += 1;
        }
        self.cur_param = 0;
        self.intermediate = None;
        assert(forall|k: int| 0 <= k < PARAMS_LEN ==> #[trigger] self.param_views()[k] == self.params@[k]@);
    }

    fn collect(&mut self, input: char)
        ensures
            final(self).state == old(self).state,
            final(self).params == old(self).params,
            final(self).cur_param == old(self).cur_param,
            final(self).intermediate == Some(input),
    {
        self.intermediate = Some(input);
    }

    /// Feeds a parameter character: a digit, `:` or `;`.
    fn param(&mut self, input: char)
        requires
            old(self).wf(),
            in_range(input as u32, 0x30, 0x3b),
        ensures
            final(self).wf(),
            final(self).state == old(self).state,
            final(self).inter() == old(self).inter(),
            (final(self).param_views(), final(self).cur())
                == spec_param(old(self).param_views(), old(self).cur(), input as u32),
    {
        let ghost old_vs = self.param_views();
        if input == ';' {
            self.cur_param += 1;
            if self.cur_param == PARAMS_LEN {
                self.cur_param = PARAMS_LEN - 1;
            }
        } else if input == ':' {
            let cur = self.cur_param;
            let mut p = self.params[cur];
            assert(self.params@[cur as int].wf());
            p.add_part();
            self.params.set(cur, p);
            assert(self.param_views() =~= spec_param(old_vs, cur as int, input as u32).0);
        } else {
            let cur = self.cur_param;
            let mut p = self.params[cur];
            assert(self.params@[cur as int].wf());
            let d: u8 = (input as u32 - 0x30) as u8;
            p.add_digit(d);
            self.params.set(cur, p);
            assert(self.param_views() =~= spec_param(old_vs, cur as int, input as u32).0);
        }
    }

    fn put(&mut self, _input: char)
        ensures
            *final(self) == *old(self),
    {
    }

    fn osc_put(&mut self, _input: char)
        ensures
            *final(self) == *old(self),
    {
    }

    fn esc_dispatch(&mut self, input: char) -> (r: Option<Function>)
        ensures
            final(self).state == (if old(self).intermediate is None && input as u32 == 0x63 { State::Ground } else { old(self).state }),
            final(self).params == old(self).params,
            final(self).cur_param == old(self).cur_param,
            final(self).intermediate == old(self).intermediate,
            r == spec_esc_dispatch(old(self).intermediate, input as u32),
    {
        let c = input as u32;
        match self.intermediate {
            None => {
                if 0x40 <= c && c <= 0x5f {
                    self.exec_code(c + 0x40)
                } else if c == 0x37 {
                    Some(Function::Decsc)
                } else if c == 0x38 {
                    Some(Function::Decrc)
                } else if c == 0x63 {
                    self.state = State::Ground;
                    Some(Function::Ris)
                } else {
                    None
                }
            },
            Some(i) => {
                if i == '#' && c == 0x38 {
                    Some(Function::Decaln)
                } else if i == '(' {
                    Some(Function::Gzd4(if c == 0x30 { Charset::Drawing } else { Charset::Ascii }))
                } else if i == ')' {
                    Some(Function::G1d4(if c == 0x30 { Charset::Drawing } else { Charset::Ascii }))
                } else {
                    None
                }
            },
        }
    }
    fn active_params(&self) -> (s: &[Param])
        requires
            self.wf(),
        ensures
            s@ == self.params@.subrange(0, self.cur_param + 1),
            views(s@) == self.param_views().subrange(0, self.cur() + 1),
            all_wf(s@),
    {
        let (head, _) = self.params.as_slice().split_at(self.cur_param + 1);
        assert(views(head@) =~= self.param_views().subrange(0, self.cur() + 1));
        head
    }

    fn ansi_modes(&self) -> (v: Vec<AnsiMode>)
        requires
            self.wf(),
        ensures
            v@ == ansi_modes(self.param_views().subrange(0, self.cur() + 1)),
    {
        let mut v: Vec<AnsiMode> = Vec::new();
        let mut i: usize = 0;
        let ghost vs = self.param_views();
        while i <= self.cur_param
            invariant
                self.wf(),
                vs == self.param_views(),
                i <= self.cur_param + 1,
                v@ == ansi_modes(vs.subrange(0, i as int)),
            decreases self.cur_param + 1 - i,
        {
            let ghost pre = vs.subrange(0, i as int);
            assert(vs.subrange(0, i + 1).drop_last() =~= pre);
            assert(vs.subrange(0, i + 1).last() == self.params@[i as int]@);
            assert(self.params@[i as int].wf());
            match ansi_mode(&self.params[i]) {
                Some(m) => v.push(m),
                None => {},
            }
            i += 1;
        }
        v
    }

    fn dec_modes(&self) -> (v: Vec<DecMode>)
        requires
            self.wf(),
        ensures
            v@ == dec_modes(self.param_views().subrange(0, self.cur() + 1)),
    {
        let mut v: Vec<DecMode> = Vec::new();
        let mut i: usize = 0;
        let ghost vs = self.param_views();
        while i <= self.cur_param
            invariant
                self.wf(),
                vs == self.param_views(),
                i <= self.cur_param + 1,
                v@ == dec_modes(vs.subrange(0, i as int)),
            decreases self.cur_param + 1 - i,
        {
            let ghost pre = vs.subrange(0, i as int);
            assert(vs.subrange(0, i + 1).drop_last() =~= pre);
            assert(vs.subrange(0, i + 1).last() == self.params@[i as int]@);
            assert(self.params@[i as int].wf());
            match dec_mode(&self.params[i]) {
                Some(m) => v.push(m),
                None => {},
            }
            i += 1;
        }
        v
    }

    fn csi_dispatch(&self, input: char) -> (r: Option<Function>)
        requires
            self.wf(),
        ensures
            spec_csi_dispatch(self.param_views(), self.cur(), self.intermediate, input as u32, r),
    {
        proof {
            assert(self.params@[0].wf());
            assert(self.params@[1].wf());
            assert(self.params@[2].wf());
            assert(self.param_views()[0][0] == self.params@[0].parts@[0]);
            assert(self.param_views()[1][0] == self.params@[1].parts@[0]);
            assert(self.param_views()[2][0] == self.params@[2].parts@[0]);
        }
        let n0 = self.params[0].as_u16();
        let n1 = self.params[1].as_u16();
        let n2 = self.params[2].as_u16();
        match self.intermediate {
            None => {
                if input == '@' { Some(Function::Ich(n0)) }
                else if input == 'A' { Some(Function::Cuu(n0)) }
                else if input == 'B' { Some(Function::Cud(n0)) }
                else if input == 'C' { Some(Function::Cuf(n0)) }
                else if input == 'D' { Some(Function::Cub(n0)) }
                else if input == 'E' { Some(Function::Cnl(n0)) }
                else if input == 'F' { Some(Function::Cpl(n0)) }
                else if input == 'G' { Some(Function::Cha(n0)) }
                else if input == 'H' { Some(Function::Cup(n0, n1)) }
                else if input == 'I' { Some(Function::Cht(n0)) }
                else if input == 'J' {
                    if n0 == 0 { Some(Function::Ed(EdScope::Below)) }
                    else if n0 == 1 { Some(Function::Ed(EdScope::Above)) }
                    else if n0 == 2 { Some(Function::Ed(EdScope::All)) }
                    else if n0 == 3 { Some(Function::Ed(EdScope::SavedLines)) }
                    else { None }
                }
                else if input == 'K' {
                    if n0 == 0 { Some(Function::El(ElScope::ToRight)) }
                    else if n0 == 1 { Some(Function::El(ElScope::ToLeft)) }
                    else if n0 == 2 { Some(Function::El(ElScope::All)) }
                    else { None }
                }
                else if input == 'L' { Some(Function::Il(n0)) }
                else if input == 'M' { Some(Function::Dl(n0)) }
                else if input == 'P' { Some(Function::Dch(n0)) }
                else if input == 'S' { Some(Function::Su(n0)) }
                else if input == 'T' { Some(Function::Sd(n0)) }
                else if input == 'W' {
                    if n0 == 0 { Some(Function::Ctc(CtcOp::SetTab)) }
                    else if n0 == 2 { Some(Function::Ctc(CtcOp::ClearCurrentColumn)) }
                    else if n0 == 5 { Some(Function::Ctc(CtcOp::ClearAll)) }
                    else { None }
                }
                else if input == 'X' { Some(Function::Ech(n0)) }
                else if input == 'Z' { Some(Function::Cbt(n0)) }
                else if input == '`' { Some(Function::Cha(n0)) }
                else if input == 'a' { Some(Function::Cuf(n0)) }
                else if input == 'b' { Some(Function::Rep(n0)) }
                else if input == 'd' { Some(Function::Vpa(n0)) }
                else if input == 'e' { Some(Function::Vpr(n0)) }
                else if input == 'f' { Some(Function::Cup(n0, n1)) }
                else if input == 'g' {
                    if n0 == 0 { Some(Function::Tbc(TbcScope::CurrentColumn)) }
                    else if n0 == 3 { Some(Function::Tbc(TbcScope::All)) }
                    else { None }
                }
                else if input == 'h' { Some(Function::Sm(self.ansi_modes())) }
                else if input == 'l' { Some(Function::Rm(self.ansi_modes())) }
                else if input == 'm' { Some(Function::Sgr(decode_sgr(self.active_params()))) }
                else if input == 'r' { Some(Function::Decstbm(n0, n1)) }
                else if input == 's' { Some(Function::Scosc) }
                else if input == 't' {
                    if n0 == 8 { Some(Function::Xtwinops(XtwinopsOp::Resize(n2, n1))) } else { None }
                }
                else if input == 'u' { Some(Function::Scorc) }
                else { None }
            },
            Some(i) => {
                if i == '!' && input == 'p' { Some(Function::Decstr) }
                else if i == '?' && input == 'h' { Some(Function::Decset(self.dec_modes())) }
                else if i == '?' && input == 'l' { Some(Function::Decrst(self.dec_modes())) }
                else { None }
            },
        }
    }

    /// Feeds one input character. Returns the function that a completed
    /// control sequence, control character or printable character stands for.
    pub fn feed(&mut self, input: char) -> (r: Option<Function>)
        requires
            old(self).wf(),
        ensures
            final(self).wf(),
            spec_feed(*old(self), input, *final(self), r),
            old(self).resumable() ==> final(self).resumable(),
    {
        let c: u32 = if input >= '\u{a0}' { 0x41 } else { input as u32 };
        let (next, action) = transition(self.state, c);
        self.state = next;
        let r = match action {
            Action::Print => Some(Function::Print(input)),
            Action::Param => {
                self.param(input);
                None
            },
            Action::Clear => {
                self.clear();
                None
            },
            Action::CsiDispatch => self.csi_dispatch(input),
            Action::Execute => self.execute(input),
            Action::Collect => {
                self.collect(input);
                None
            },
            Action::EscDispatch => self.esc_dispatch(input),
            Action::Put => {
                self.put(input);
                None
            },
            Action::OscPut => {
                self.osc_put(input);
                None
            },
            Action::Ignore => None,
        };
        proof {
            if old(self).resumable() {
                lemma_feed_resumable(*old(self), input, *self, r);
            }
        }
        r
    }

    fn push_params(&self, out: &mut Vec<char>)
        requires
            self.wf(),
        ensures
            final(out)@ == old(out)@ + params_text(self.param_views().subrange(0, self.cur() + 1)),
    {
        let ghost vs = self.param_views();
        let mut i: usize = 0;
        while i <= self.cur_param
            invariant
                self.wf(),
                vs == self.param_views(),
                i <= self.cur_param + 1,
                out@ == old(out)@ + params_text(vs.subrange(0, i as int)),
            decreases self.cur_param + 1 - i,
        {
            if i > 0 {
                out.push(';');
            }
            assert(self.params@[i as int].wf());
            self.params[i].push_text(out);
            proof {
                let s = vs.subrange(0, i + 1);
                assert(s.drop_last() =~= vs.subrange(0, i as int));
                assert(s.last() == self.params@[i as int]@);
                if i == 0 {
                    assert(out@ =~= old(out)@ + params_text(s));
                } else {
                    assert(out@ =~= old(out)@ + params_text(s));
                }
            }
            i += 1;
        }
    }

    fn push_inter(&self, out: &mut Vec<char>)
        ensures
            final(out)@ == old(out)@ + inter_text(self.intermediate),
    {
        match self.intermediate {
            Some(c) => out.push(c),
            None => {},
        }
        assert(out@ =~= old(out)@ + inter_text(self.intermediate));
    }

    /// Appends the input that brings a fresh parser into this state.
    pub fn dump_to(&self, out: &mut Vec<char>)
        requires
            self.wf(),
        ensures
            final(out)@ == old(out)@ + spec_parser_dump(*self),
    {
        let ghost start = out@;
        match self.state {
            State::Ground => {},
            State::Escape => out.push('\u{1b}'),
            State::EscapeIntermediate => {
                out.push('\u{1b}');
                self.push_inter(out);
            },
            State::CsiEntry => out.push('\u{9b}'),
            State::CsiParam => {
                out.push('\u{9b}');
                self.push_inter(out);
                self.push_params(out);
            },
            State::CsiIntermediate => {
                out.push('\u{9b}');
                self.push_inter(out);
            },
            State::CsiIgnore => {
                out.push('\u{9b}');
                out.push(':');
            },
            State::DcsEntry => out.push('\u{90}'),
            State::DcsIntermediate => {
                out.push('\u{90}');
                self.push_inter(out);
            },
            State::DcsParam => {
                out.push('\u{90}');
                self.push_inter(out);
                self.push_params(out);
            },
            State::DcsPassthrough => {
                out.push('\u{90}');
                self.push_inter(out);
                out.push('@');
            },
            State::DcsIgnore => {
                out.push('\u{90}');
                out.push(':');
            },
            State::OscString => out.push('\u{9d}'),
            State::SosPmApcString => out.push('\u{98}'),
        }
        assert(out@ =~= start + spec_parser_dump(*self));
    }

    /// Whether `other` is in the same state: the same state, the same
    /// parameters while they are being collected, and the same intermediate
    /// while one can be collected.
    #[verifier::loop_isolation(false)]
    pub fn assert_eq(&self, other: &Parser) -> (b: bool)
        requires
            self.wf(),
            other.wf(),
        ensures
            b == {
                &&& self.state == other.state
                &&& (self.state == State::CsiParam || self.state == State::DcsParam) ==> {
                    &&& self.cur_param == other.cur_param
                    &&& forall|i: int| 0 <= i < PARAMS_LEN ==> #[trigger] self.params@[i].cur_part == other.params@[i].cur_part
                        && self.params@[i].parts@ == other.params@[i].parts@
                }
                &&& (self.state == State::EscapeIntermediate || self.state == State::CsiIntermediate
                    || self.state == State::CsiParam || self.state == State::DcsIntermediate
                    || self.state == State::DcsParam) ==> self.intermediate == other.intermediate
            },
    {
        if self.state != other.state {
            return false;
        }
        if self.state == State::CsiParam || self.state == State::DcsParam {
            if self.cur_param != other.cur_param {
                return false;
            }
            let mut i: usize = 0;
            while i < PARAMS_LEN
                invariant
                    self.wf(),
                    other.wf(),
                    i <= PARAMS_LEN,
                    forall|j: int| 0 <= j < i ==> #[trigger] self.params@[j].cur_part == other.params@[j].cur_part
                        && self.params@[j].parts@ == other.params@[j].parts@,
                decreases PARAMS_LEN - i,
            {
                let p = &self.params[i];
                let q = &other.params[i];
                if p.cur_part != q.cur_part {
                    return false;
                }
                let mut k: usize = 0;
                while k < 6
                    invariant
                        k <= 6,
                        forall|m: int| 0 <= m < k ==> p.parts@[m] == q.parts@[m],
                    decreases 6 - k,
                {
                    if p.parts[k] != q.parts[k] {
                        return false;
                    }
                    k += 1;
                }
                assert(p.parts@ =~= q.parts@);
                i += 1;
            }
        }
        if self.state == State::EscapeIntermediate || self.state == State::CsiIntermediate
            || self.state == State::CsiParam || self.state == State::DcsIntermediate || self.state == State::DcsParam {
            if self.intermediate != other.intermediate {
                return false;
            }
        }
        true
    }

    /// The input that brings a fresh parser into this state.
    pub fn dump(&self) -> (s: String)
        requires
            self.wf(),
        ensures
            s@ == spec_parser_dump(*self),
    {
        let mut out: Vec<char> = Vec::new();
        self.dump_to(&mut out);
        assert(out@ =~= spec_parser_dump(*self));
        string_from_chars(out.as_slice())
    }
}

/// CAN (0x18) and SUB (0x1a) cancel whatever sequence is under way: the
/// parser returns to the ground state and nothing is executed.
pub proof fn lemma_cancel(pre: Parser, input: char, post: Parser, r: Option<Function>)
    requires
        input == '\u{18}' || input == '\u{1a}',
        spec_feed(pre, input, post, r),
    ensures
        post.state == State::Ground,
        r is None,
{
}

/// In the ground state a printable character (from the space to `~`, or
/// from U+00A0 on) is printed, and the parser stays in the ground state.
pub proof fn lemma_ground_print(pre: Parser, input: char, post: Parser, r: Option<Function>)
    requires
        pre.state == State::Ground,
        (0x20 <= (input as u32) && (input as u32) <= 0x7e) || (input as u32) >= 0xa0,
        spec_feed(pre, input, post, r),
    ensures
        post.state == State::Ground,
        r == Some(Function::Print(input)),
{
}

/// Feeding a character keeps a parser one that its dump brings back.
pub proof fn lemma_feed_resumable(pre: Parser, input: char, post: Parser, r: Option<Function>)
    requires
        pre.resumable(),
        post.wf(),
        spec_feed(pre, input, post, r),
    ensures
        post.resumable(),
{
    let (next, action) = spec_transition(pre.state, input_code(input));
    if post.state == State::DcsParam {
        assert forall|i: int| 0 <= i < PARAMS_LEN implies (#[trigger] post.param_views()[i]).len() == 1 by {
            if action == Action::Param {
                if pre.state == State::DcsEntry {
                    assert(pre.param_views()[i] == seq![0u16]);
                } else if i > pre.cur() {
                    assert(pre.param_views()[i] == seq![0u16]);
                }
            }
        }
    }
}

} // verus!
