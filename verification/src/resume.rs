//! Feeding a parser's dump to a fresh parser brings back its state.
use crate::function::Function;
use crate::param::{append_digit, param_text};
use crate::parser::{
    all_cleared, code, input_code, inter_text, params_text, spec_feed, spec_param, spec_parser_dump,
    spec_transition, Action, Parser, State, PARAMS_LEN,
};
use crate::text::{decimal, digit_char};
use vstd::prelude::*;

verus! {

/// Feeding `input` to `ps[0]` one character at a time passes through the
/// parsers `ps` and yields `rs`.
pub open spec fn fed(ps: Seq<Parser>, input: Seq<char>, rs: Seq<Option<Function>>) -> bool {
    &&& ps.len() == input.len() + 1
    &&& rs.len() == input.len()
    &&& forall|i: int| 0 <= i < input.len() ==> #[trigger] spec_feed(ps[i], input[i], ps[i + 1], rs[i])
}

/// One step of a feeding.
pub(crate) proof fn lemma_fed_step(ps: Seq<Parser>, input: Seq<char>, rs: Seq<Option<Function>>, i: int)
    requires
        fed(ps, input, rs),
        0 <= i < input.len(),
    ensures
        spec_feed(ps[i], input[i], ps[i + 1], rs[i]),
{
}

/// The parameters (and the index of the current one) after the parameter
/// characters `text`.
pub open spec fn params_fed(vs: Seq<Seq<u16>>, cur: int, text: Seq<char>) -> (Seq<Seq<u16>>, int)
    decreases text.len(),
{
    if text.len() == 0 {
        (vs, cur)
    } else {
        let (v, c) = params_fed(vs, cur, text.drop_last());
        spec_param(v, c, text.last() as u32)
    }
}

/// `q` behaves as `p`: the same state, and the same parameters and
/// intermediate where the state keeps them.
pub open spec fn resumes(p: Parser, q: Parser) -> bool {
    &&& q.state == p.state
    &&& (p.state == State::CsiParam || p.state == State::DcsParam) ==> {
        &&& q.param_views() == p.param_views()
        &&& q.cur() == p.cur()
    }
    &&& (p.state == State::EscapeIntermediate || p.state == State::CsiIntermediate || p.state == State::CsiParam
        || p.state == State::DcsIntermediate || p.state == State::DcsParam) ==> q.intermediate == p.intermediate
}

/// Whether `c` is a decimal digit.
pub open spec fn is_digit(c: char) -> bool {
    '0' <= c <= '9'
}

/// Whether the characters of `s` are digits and `;`, and `:` when `colon`.
pub open spec fn param_chars(s: Seq<char>, colon: bool) -> bool {
    forall|i: int| 0 <= i < s.len() ==> #[trigger] is_digit(s[i]) || s[i] == ';' || (colon && s[i] == ':')
}

/// The digits of a decimal number.
pub(crate) proof fn lemma_decimal_chars(n: nat)
    ensures
        decimal(n).len() > 0,
        forall|i: int| 0 <= i < decimal(n).len() ==> #[trigger] is_digit(decimal(n)[i]),
    decreases n,
{
    if n >= 10 {
        lemma_decimal_chars(n / 10);
        assert forall|i: int| 0 <= i < decimal(n).len() implies #[trigger] is_digit(decimal(n)[i]) by {
            if i < decimal(n / 10).len() {
                assert(decimal(n)[i] == decimal(n / 10)[i]);
            }
        }
    }
}

/// The characters of a parameter's text: digits, with `:` between parts.
pub(crate) proof fn lemma_param_text_chars(parts: Seq<u16>)
    requires
        parts.len() >= 1,
    ensures
        param_text(parts).len() > 0,
        is_digit(param_text(parts)[0]),
        param_chars(param_text(parts), parts.len() > 1),
    decreases parts.len(),
{
    if parts.len() == 1 {
        lemma_decimal_chars(parts[0] as nat);
    } else {
        lemma_param_text_chars(parts.drop_last());
        lemma_decimal_chars(parts.last() as nat);
        let a = param_text(parts.drop_last()).push(':');
        let b = decimal(parts.last() as nat);
        assert(param_text(parts) == a + b);
        assert(param_text(parts)[0] == param_text(parts.drop_last())[0]);
        assert forall|i: int| 0 <= i < param_text(parts).len()
            implies #[trigger] is_digit(param_text(parts)[i]) || param_text(parts)[i] == ';' || (parts.len() > 1 && param_text(parts)[i] == ':') by {
            if i < a.len() - 1 {
                assert(param_text(parts)[i] == param_text(parts.drop_last())[i]);
            } else if i >= a.len() {
                assert(param_text(parts)[i] == b[i - a.len()]);
            }
        }
    }
}

/// The characters of the parameters' text: digits, `;` between
/// parameters, and `:` between parts when some parameter has several.
pub(crate) proof fn lemma_params_text_chars(vs: Seq<Seq<u16>>, colon: bool)
    requires
        vs.len() >= 1,
        forall|i: int| 0 <= i < vs.len() ==> (#[trigger] vs[i]).len() >= 1,
        !colon ==> forall|i: int| 0 <= i < vs.len() ==> (#[trigger] vs[i]).len() == 1,
    ensures
        params_text(vs).len() > 0,
        is_digit(params_text(vs)[0]),
        param_chars(params_text(vs), colon),
    decreases vs.len(),
{
    lemma_param_text_chars(vs.last());
    if vs.len() == 1 {
        assert(vs.last() == vs[0]);
    } else {
        lemma_params_text_chars(vs.drop_last(), colon);
        let a = params_text(vs.drop_last()).push(';');
        let b = param_text(vs.last());
        assert(params_text(vs) == a + b);
        assert(params_text(vs)[0] == params_text(vs.drop_last())[0]);
        assert forall|i: int| 0 <= i < params_text(vs).len()
            implies #[trigger] is_digit(params_text(vs)[i]) || params_text(vs)[i] == ';' || (colon && params_text(vs)[i] == ':') by {
            if i < a.len() - 1 {
                assert(params_text(vs)[i] == params_text(vs.drop_last())[i]);
            } else if i >= a.len() {
                assert(params_text(vs)[i] == b[i - a.len()]);
            }
        }
    }
}

/// Feeding two texts is feeding the first, then the second.
pub(crate) proof fn lemma_fed_concat(vs: Seq<Seq<u16>>, cur: int, t1: Seq<char>, t2: Seq<char>)
    ensures
        params_fed(vs, cur, t1 + t2) == params_fed(params_fed(vs, cur, t1).0, params_fed(vs, cur, t1).1, t2),
    decreases t2.len(),
{
    if t2.len() == 0 {
        assert(t1 + t2 == t1);
    } else {
        lemma_fed_concat(vs, cur, t1, t2.drop_last());
        assert((t1 + t2).drop_last() == t1 + t2.drop_last());
        assert((t1 + t2).last() == t2.last());
    }
}

/// The digit character of `d` stands for `d`.
proof fn lemma_digit_code(d: nat)
    requires
        d < 10,
    ensures
        (digit_char(d) as u32) - 0x30 == d,
        digit_char(d) as u32 != code(';'),
        digit_char(d) as u32 != code(':'),
{
}

/// The decimal text of `n` turns a current part `0` into `n`.
pub(crate) proof fn lemma_decimal_fed(vs: Seq<Seq<u16>>, cur: int, n: u16)
    requires
        0 <= cur < vs.len(),
        vs[cur].len() >= 1,
        vs[cur].last() == 0,
    ensures
        params_fed(vs, cur, decimal(n as nat)) == (vs.update(cur, vs[cur].update(vs[cur].len() - 1, n)), cur),
    decreases n,
{
    let p = vs[cur];
    if n < 10 {
        let t = decimal(n as nat);
        lemma_digit_code(n as nat);
        assert(t.drop_last().len() == 0);
        assert(params_fed(vs, cur, t.drop_last()) == (vs, cur));
        assert(t.last() == digit_char(n as nat));
        let c = t.last() as u32;
        assert(((c - 0x30) as u8) == n as u8);
        assert(append_digit(0, n as u8) == n);
        assert(spec_param(vs, cur, c) == (vs.update(cur, p.update(p.len() - 1, n)), cur));
    } else {
        let m = (n / 10) as u16;
        let d = (n % 10) as nat;
        lemma_decimal_fed(vs, cur, m);
        lemma_digit_code(d);
        let t = decimal(n as nat);
        assert(t.drop_last() == decimal(m as nat));
        assert(t.last() == digit_char(d));
        let v1 = vs.update(cur, p.update(p.len() - 1, m));
        assert(params_fed(vs, cur, t.drop_last()) == (v1, cur));
        assert(v1[cur].last() == m);
        let c = t.last() as u32;
        assert(((c - 0x30) as u8) == d as u8);
        assert(append_digit(m, d as u8) == n);
        assert(spec_param(v1, cur, c) == (v1.update(cur, v1[cur].update(p.len() - 1, n)), cur));
        assert(v1[cur].update(p.len() - 1, n) == p.update(p.len() - 1, n));
        assert(v1.update(cur, p.update(p.len() - 1, n)) == vs.update(cur, p.update(p.len() - 1, n)));
    }
}

/// The text of a parameter turns a cleared current parameter into it.
pub(crate) proof fn lemma_param_text_fed(vs: Seq<Seq<u16>>, cur: int, parts: Seq<u16>)
    requires
        0 <= cur < vs.len(),
        vs[cur] == seq![0u16],
        1 <= parts.len() <= 6,
    ensures
        params_fed(vs, cur, param_text(parts)) == (vs.update(cur, parts), cur),
    decreases parts.len(),
{
    if parts.len() == 1 {
        lemma_decimal_fed(vs, cur, parts[0]);
        assert(seq![0u16].update(0, parts[0]) == parts);
    } else {
        let init = parts.drop_last();
        lemma_param_text_fed(vs, cur, init);
        let a = param_text(init).push(':');
        let b = decimal(parts.last() as nat);
        assert(param_text(parts) == a + b);
        lemma_fed_concat(vs, cur, a, b);
        let v1 = vs.update(cur, init);
        assert(a.drop_last() == param_text(init));
        assert(a.last() == ':');
        let v2 = v1.update(cur, init.push(0));
        assert(params_fed(vs, cur, a) == (v2, cur));
        lemma_decimal_fed(v2, cur, parts.last());
        assert(init.push(0).update(init.len() as int, parts.last()) == parts);
        assert(v2.update(cur, parts) == vs.update(cur, parts));
    }
}

/// The text of the parameters turns cleared parameters into them, the
/// last of them current.
pub(crate) proof fn lemma_params_text_fed(vs: Seq<Seq<u16>>, active: Seq<Seq<u16>>)
    requires
        vs.len() == PARAMS_LEN,
        all_cleared(vs),
        1 <= active.len() <= PARAMS_LEN,
        forall|i: int| 0 <= i < active.len() ==> 1 <= (#[trigger] active[i]).len() <= 6,
    ensures
        params_fed(vs, 0, params_text(active)) == (active + vs.skip(active.len() as int), active.len() - 1),
    decreases active.len(),
{
    let k = active.len() - 1;
    if active.len() == 1 {
        assert(vs[0] == seq![0u16]);
        lemma_param_text_fed(vs, 0, active[0]);
        assert(vs.update(0, active[0]) == active + vs.skip(1));
    } else {
        let init = active.drop_last();
        lemma_params_text_fed(vs, init);
        let a = params_text(init).push(';');
        let b = param_text(active.last());
        assert(params_text(active) == a + b);
        lemma_fed_concat(vs, 0, a, b);
        let v1 = init + vs.skip(init.len() as int);
        assert(a.drop_last() == params_text(init));
        assert(a.last() == ';');
        assert(params_fed(vs, 0, a) == (v1, k));
        assert(v1[k] == vs[k]);
        assert(vs[k] == seq![0u16]);
        lemma_param_text_fed(v1, k, active.last());
        assert(v1.update(k, active.last()) == active + vs.skip(active.len() as int));
    }
}

/// Along parameter characters from `a` to `b`, a parser in (or entering)
/// the parameters of a control sequence (`dcs` false) or of a device
/// control string stays in them, yields nothing, keeps its intermediate
/// and collects the parameters `params_fed` says.
pub(crate) proof fn lemma_params_chain(ps: Seq<Parser>, input: Seq<char>, rs: Seq<Option<Function>>, a: int, b: int, dcs: bool)
    requires
        fed(ps, input, rs),
        0 <= a <= b <= input.len(),
        ps[a].state == (if dcs { State::DcsParam } else { State::CsiParam })
            || (a < b && ps[a].state == (if dcs { State::DcsEntry } else { State::CsiEntry })
            && (is_digit(input[a]) || input[a] == ';')),
        forall|j: int| a <= j < b ==> #[trigger] is_digit(input[j]) || input[j] == ';' || (!dcs && input[j] == ':'),
    ensures
        forall|j: int| a <= j < b ==> rs[j] is None,
        (ps[b].param_views(), ps[b].cur()) == params_fed(ps[a].param_views(), ps[a].cur(), input.subrange(a, b)),
        ps[b].intermediate == ps[a].intermediate,
        a < b ==> ps[b].state == (if dcs { State::DcsParam } else { State::CsiParam }),
    decreases b - a,
{
    if a < b {
        let j = b - 1;
        if a < j || ps[a].state == (if dcs { State::DcsParam } else { State::CsiParam }) {
            lemma_params_chain(ps, input, rs, a, j, dcs);
        } else {
            assert(input.subrange(a, j).len() == 0);
            assert(params_fed(ps[a].param_views(), ps[a].cur(), input.subrange(a, j)) == (ps[a].param_views(), ps[a].cur()));
        }
        let before = params_fed(ps[a].param_views(), ps[a].cur(), input.subrange(a, j));
        assert(before == (ps[j].param_views(), ps[j].cur()));
        lemma_fed_step(ps, input, rs, j);
        assert(is_digit(input[j]) || input[j] == ';' || (!dcs && input[j] == ':'));
        assert(input.subrange(a, b).drop_last() == input.subrange(a, b - 1));
        assert(input.subrange(a, b).last() == input[j]);
        assert(input_code(input[j]) == input[j] as u32);
        assert(params_fed(ps[a].param_views(), ps[a].cur(), input.subrange(a, b))
            == spec_param(before.0, before.1, input[j] as u32));
    } else {
        assert(input.subrange(a, b).len() == 0);
    }
}

/// Feeding the dump of a parser that can be resumed to a fresh parser
/// yields nothing and leaves it behaving as that parser: in the same
/// state, with the same parameters and intermediate where the state keeps
/// them.
pub proof fn lemma_dump_resumes(p: Parser, ps: Seq<Parser>, rs: Seq<Option<Function>>)
    requires
        p.resumable(),
        fed(ps, spec_parser_dump(p), rs),
        ps[0].is_fresh(),
        forall|i: int| 0 <= i < ps.len() ==> (#[trigger] ps[i]).wf(),
    ensures
        forall|i: int| 0 <= i < rs.len() ==> rs[i] is None,
        resumes(p, ps.last()),
{
    let input = spec_parser_dump(p);
    let n = input.len() as int;
    let q = ps.last();
    assert(q == ps[n]);
    if n > 0 {
        lemma_fed_step(ps, input, rs, 0);
    }
    if n > 1 {
        lemma_fed_step(ps, input, rs, 1);
    }
    if n > 2 {
        lemma_fed_step(ps, input, rs, 2);
    }
    let inter = inter_text(p.intermediate);
    let active = p.param_views().subrange(0, p.cur() + 1);
    if p.state == State::CsiParam || p.state == State::DcsParam {
        let dcs = p.state == State::DcsParam;
        let intro = if dcs { seq!['\u{90}'] } else { seq!['\u{9b}'] };
        assert(input == intro + inter + params_text(active));
        let a = 1 + inter.len();
        assert forall|i: int| 0 <= i < active.len() implies 1 <= (#[trigger] active[i]).len() <= 6 by {
            assert(active[i] == p.param_views()[i]);
            assert(p.params@[i].wf());
        }
        if dcs {
            assert forall|i: int| 0 <= i < active.len() implies (#[trigger] active[i]).len() == 1 by {
                assert(active[i] == p.param_views()[i]);
            }
        }
        lemma_params_text_chars(active, !dcs);
        let t = params_text(active);
        assert(input.subrange(a as int, n) == t);
        assert forall|j: int| a <= j < n implies #[trigger] is_digit(input[j]) || input[j] == ';' || (!dcs && input[j] == ':') by {
            assert(input[j] == t[j - a]);
        }
        assert(input[a as int] == t[0]);
        lemma_params_chain(ps, input, rs, a as int, n, dcs);
        let vs = ps[a as int].param_views();
        assert(ps[a as int].params@.len() == PARAMS_LEN);
        lemma_params_text_fed(vs, active);
        assert(active + vs.skip(active.len() as int) == p.param_views()) by {
            assert forall|i: int| 0 <= i < PARAMS_LEN implies #[trigger] (active + vs.skip(active.len() as int))[i] == p.param_views()[i] by {
                if i > p.cur() {
                    assert(p.param_views()[i] == p.params@[i]@);
                }
            }
        }
    } else if p.state == State::DcsPassthrough {
        assert(input == seq!['\u{90}'] + inter + seq!['@']);
    } else if p.state == State::EscapeIntermediate {
        assert(input == seq!['\u{1b}'] + inter);
    } else if p.state == State::CsiIntermediate {
        assert(input == seq!['\u{9b}'] + inter);
    } else if p.state == State::DcsIntermediate {
        assert(input == seq!['\u{90}'] + inter);
    }
}

/// Two outputs of a parser that say the same: both none, or the same
/// function (lists compared by their items).
pub open spec fn same_output(r1: Option<Function>, r2: Option<Function>) -> bool {
    match (r1, r2) {
        (None, None) => true,
        (Some(f), Some(g)) => match (f, g) {
            (Function::Sgr(a), Function::Sgr(b)) => a@ == b@,
            (Function::Sm(a), Function::Sm(b)) => a@ == b@,
            (Function::Rm(a), Function::Rm(b)) => a@ == b@,
            (Function::Decset(a), Function::Decset(b)) => a@ == b@,
            (Function::Decrst(a), Function::Decrst(b)) => a@ == b@,
            _ => f == g,
        },
        _ => false,
    }
}

/// Two parsers that behave alike still do after the same character, and
/// say the same.
pub proof fn lemma_resumes_feed(p: Parser, q: Parser, input: char, p2: Parser, q2: Parser, r1: Option<Function>, r2: Option<Function>)
    requires
        p.resumable(),
        q.resumable(),
        resumes(p, q),
        spec_feed(p, input, p2, r1),
        spec_feed(q, input, q2, r2),
        p2.wf(),
        q2.wf(),
    ensures
        resumes(p2, q2),
        same_output(r1, r2),
{
    let (next, action) = spec_transition(p.state, input_code(input));
    if p.state == State::CsiEntry || p.state == State::DcsEntry {
        assert(p.param_views() =~= q.param_views()) by {
            assert forall|i: int| 0 <= i < PARAMS_LEN implies p.param_views()[i] == q.param_views()[i] by {
                assert(p.param_views()[i] == seq![0u16]);
                assert(q.param_views()[i] == seq![0u16]);
            }
        }
    }
    if action == Action::Clear {
        assert(p2.param_views() =~= q2.param_views()) by {
            assert forall|i: int| 0 <= i < PARAMS_LEN implies p2.param_views()[i] == q2.param_views()[i] by {
                assert(p2.param_views()[i] == seq![0u16]);
                assert(q2.param_views()[i] == seq![0u16]);
            }
        }
    }
    if action == Action::CsiDispatch {
        match (r1, r2) {
            (Some(f), Some(g)) => {
                match (f, g) {
                    (Function::Sgr(a), Function::Sgr(b)) => {},
                    _ => {},
                }
            },
            _ => {},
        }
    }
}

/// Two parsers that behave alike, fed the same characters, say the same
/// and still behave alike.
pub proof fn lemma_resumes_fed(ps: Seq<Parser>, qs: Seq<Parser>, input: Seq<char>, rs1: Seq<Option<Function>>, rs2: Seq<Option<Function>>)
    requires
        ps[0].resumable(),
        qs[0].resumable(),
        resumes(ps[0], qs[0]),
        fed(ps, input, rs1),
        fed(qs, input, rs2),
        forall|i: int| 0 <= i < ps.len() ==> (#[trigger] ps[i]).wf(),
        forall|i: int| 0 <= i < qs.len() ==> (#[trigger] qs[i]).wf(),
    ensures
        forall|i: int| 0 <= i < input.len() ==> #[trigger] same_output(rs1[i], rs2[i]),
        resumes(ps.last(), qs.last()),
    decreases input.len(),
{
    let n = input.len() as int;
    if n > 0 {
        let ps1 = ps.drop_last();
        let qs1 = qs.drop_last();
        let in1 = input.drop_last();
        assert(fed(ps1, in1, rs1.drop_last())) by {
            assert forall|i: int| 0 <= i < in1.len() implies #[trigger] spec_feed(ps1[i], in1[i], ps1[i + 1], rs1.drop_last()[i]) by {
                lemma_fed_step(ps, input, rs1, i);
            }
        }
        assert(fed(qs1, in1, rs2.drop_last())) by {
            assert forall|i: int| 0 <= i < in1.len() implies #[trigger] spec_feed(qs1[i], in1[i], qs1[i + 1], rs2.drop_last()[i]) by {
                lemma_fed_step(qs, input, rs2, i);
            }
        }
        lemma_resumes_fed(ps1, qs1, in1, rs1.drop_last(), rs2.drop_last());
        lemma_fed_chain_resumable(ps1, in1, rs1.drop_last());
        lemma_fed_chain_resumable(qs1, in1, rs2.drop_last());
        lemma_fed_step(ps, input, rs1, n - 1);
        lemma_fed_step(qs, input, rs2, n - 1);
        assert(ps1.last() == ps[n - 1]);
        assert(qs1.last() == qs[n - 1]);
        lemma_resumes_feed(ps[n - 1], qs[n - 1], input[n - 1], ps[n], qs[n], rs1[n - 1], rs2[n - 1]);
        assert forall|i: int| 0 <= i < input.len() implies #[trigger] same_output(rs1[i], rs2[i]) by {
            if i < n - 1 {
                assert(rs1[i] == rs1.drop_last()[i]);
                assert(rs2[i] == rs2.drop_last()[i]);
            }
        }
    }
}

/// Along a feeding through well-formed parsers, a parser that can be
/// resumed stays so.
proof fn lemma_fed_chain_resumable(ps: Seq<Parser>, input: Seq<char>, rs: Seq<Option<Function>>)
    requires
        ps[0].resumable(),
        fed(ps, input, rs),
        forall|i: int| 0 <= i < ps.len() ==> (#[trigger] ps[i]).wf(),
    ensures
        ps.last().resumable(),
    decreases input.len(),
{
    let n = input.len() as int;
    if n > 0 {
        let ps1 = ps.drop_last();
        let in1 = input.drop_last();
        assert(fed(ps1, in1, rs.drop_last())) by {
            assert forall|i: int| 0 <= i < in1.len() implies #[trigger] spec_feed(ps1[i], in1[i], ps1[i + 1], rs.drop_last()[i]) by {
                lemma_fed_step(ps, input, rs, i);
            }
        }
        lemma_fed_chain_resumable(ps1, in1, rs.drop_last());
        lemma_fed_step(ps, input, rs, n - 1);
        assert(ps1.last() == ps[n - 1]);
        crate::parser::lemma_feed_resumable(ps[n - 1], input[n - 1], ps[n], rs[n - 1]);
    }
}

} // verus!
