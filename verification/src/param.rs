use crate::text::{decimal, push_decimal};
use vstd::prelude::*;

verus! {

pub const MAX_PARAM_LEN: usize = 6;

/// One numeric parameter of a control sequence: up to six `:`-separated parts.
#[derive(Debug, Copy, Clone, PartialEq, Eq)]
pub struct Param {
    pub cur_part: usize,
    pub parts: [u16; 6],
}

/// The text of a parameter: its parts in decimal, separated by `:`.
pub open spec fn param_text(parts: Seq<u16>) -> Seq<char>
    decreases parts.len(),
{
    if parts.len() <= 1 {
        if parts.len() == 0 { Seq::empty() } else { decimal(parts[0] as nat) }
    } else {
        param_text(parts.drop_last()).push(':') + decimal(parts.last() as nat)
    }
}

/// The value a part takes when the decimal digit `d` is appended to `n`,
/// wrapping around at 2^16.
pub open spec fn append_digit(n: u16, d: u8) -> u16 {
    (10 * (n as int) + (d as int)) as u16
}

impl View for Param {
    type V = Seq<u16>;

    /// The parts entered so far.
    open spec fn view(&self) -> Seq<u16> {
        self.parts@.subrange(0, self.cur_part as int + 1)
    }
}

impl Param {
    /// The current part is one of the six, and the parts after it are zero.
    pub open spec fn wf(&self) -> bool {
        &&& self.cur_part < MAX_PARAM_LEN
        &&& forall|i: int| self.cur_part < i < 6 ==> #[trigger] self.parts@[i] == 0
    }

    pub fn new(number: u16) -> (p: Self)
        ensures
            p.wf(),
            p@ == seq![number],
    {
        let p = Param { cur_part: 0, parts: [number, 0, 0, 0, 0, 0] };
        assert(p@ =~= seq![number]);
        p
    }

    /// Resets the parameter to the single part `0`.
    pub fn clear(&mut self)
        requires
            old(self).wf(),
        ensures
            final(self).wf(),
            final(self)@ == seq![0u16],
    {
        let mut i: usize = 0;
        while i <= self.cur_part
            invariant
                self.cur_part < MAX_PARAM_LEN,
                i <= self.cur_part + 1,
                forall|j: int| 0 <= j < i ==> #[trigger] self.parts@[j] == 0,
                forall|j: int| self.cur_part < j < 6 ==> #[trigger] self.parts@[j] == 0,
            decreases self.cur_part + 1 - i,
        {
            self.parts[i] = 0;
            i += 1;
        }
        self.cur_part = 0;
        assert(self@ =~= seq![0u16]);
    }

    /// The parameter whose parts are `numbers`.
    pub fn from_slice(numbers: &[u16]) -> (p: Self)
        requires
            1 <= numbers@.len() <= MAX_PARAM_LEN,
        ensures
            p.wf(),
            p@ == numbers@,
    {
        let mut parts: [u16; 6] = [0, 0, 0, 0, 0, 0];
        let mut i: usize = 0;
        while i < numbers.len()
            invariant
                numbers@.len() <= 6,
                i <= numbers@.len(),
                forall|j: int| 0 <= j < i ==> #[trigger] parts@[j] == numbers@[j],
                forall|j: int| i <= j < 6 ==> #[trigger] parts@[j] == 0,
            decreases numbers@.len() - i,
        {
            parts[i] = numbers[i];
            i += 1;
        }
        let p = Param { cur_part: numbers.len() - 1, parts };
        assert(p@ =~= numbers@);
        p
    }

    /// Starts a new part, unless all six are in use.
    pub fn add_part(&mut self)
        requires
            old(self).wf(),
        ensures
            final(self).wf(),
            old(self).cur_part < 5 ==> final(self)@ == old(self)@.push(0),
            old(self).cur_part == 5 ==> final(self)@ == old(self)@,
    {
        if self.cur_part < 5 {
            self.cur_part = self.cur_part + 1;
            assert(self@ =~= old(self)@.push(0));
        }
    }

    /// Appends the decimal digit `input` to the current part.
    pub fn add_digit(&mut self, input: u8)
        requires
            old(self).wf(),
        ensures
            final(self).wf(),
            final(self).cur_part == old(self).cur_part,
            final(self)@ == old(self)@.update(
                old(self).cur_part as int,
                append_digit(old(self)@[old(self).cur_part as int], input),
            ),
    {
        let cur = self.cur_part;
        let number = self.parts[cur];
        let v: u32 = 10 * (number as u32) + (input as u32);
        self.parts[cur] = v as u16;
        assert(self@ =~= old(self)@.update(cur as int, append_digit(old(self)@[cur as int], input)));
    }

    /// The first part.
    pub fn as_u16(&self) -> (n: u16)
        ensures
            n == self.parts@[0],
    {
        self.parts[0]
    }

    /// The parts entered so far.
    pub fn parts(&self) -> (s: &[u16])
        requires
            self.wf(),
        ensures
            s@ == self@,
    {
        let (head, _) = self.parts.as_slice().split_at(self.cur_part + 1);
        head
    }

    /// Appends the parameter's text (its parts in decimal, `:`-separated).
    pub fn push_text(&self, out: &mut Vec<char>)
        requires
            self.wf(),
        ensures
            final(out)@ == old(out)@ + param_text(self@),
    {
        let mut i: usize = 0;
        while i <= self.cur_part
            invariant
                self.wf(),
                i <= self.cur_part + 1,
                out@ == old(out)@ + param_text(self@.subrange(0, i as int)),
            decreases self.cur_part + 1 - i,
        {
            if i > 0 {
                out.push(':');
            }
            push_decimal(out, self.parts[i] as u32);
            proof {
                let s = self@.subrange(0, i + 1);
                assert(s.drop_last() =~= self@.subrange(0, i as int));
                if i == 0 {
                    assert(self@.subrange(0, i as int) =~= Seq::<u16>::empty());
                    assert(param_text(s) == decimal(s[0] as nat));
                    assert(out@ =~= old(out)@ + param_text(s));
                } else {
                    assert(param_text(s) == param_text(s.drop_last()).push(':') + decimal(s.last() as nat));
                    assert(out@ =~= old(out)@ + param_text(s));
                }
            }
            i += 1;
        }
        assert(self@.subrange(0, self.cur_part + 1) =~= self@);
    }
}

impl Default for Param {
    fn default() -> (p: Self)
        ensures
            p.wf(),
            p@ == seq![0u16],
    {
        Param::new(0)
    }
}

} // verus!
