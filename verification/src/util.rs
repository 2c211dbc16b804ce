use crate::line::{Line, visible_chars};
use crate::text::{decimal, push_chars, push_decimal, string_from_chars, trim_end, trim_end_chars};
use crate::vt::Changes;
use crate::vt::Vt;
use vstd::prelude::*;

verus! {

/// Joins lines that wrap into logical lines of text.
#[derive(Debug)]
pub struct TextUnwrapper {
    pub wrapped_line: Vec<char>,
}

/// Reading `lines` after the partial logical line `cur`: the completed
/// logical lines (the text of the row that ends each with its white space
/// trimmed) and what is left partial.
pub open spec fn unwrapped(cur: Seq<char>, lines: Seq<Line>) -> (Seq<Seq<char>>, Seq<char>)
    decreases lines.len(),
{
    if lines.len() == 0 {
        (Seq::empty(), cur)
    } else {
        let (done, rest) = unwrapped(cur, lines.drop_last());
        let l = lines.last();
        if l.wrapped {
            (done, rest + visible_chars(l.cells@))
        } else {
            (done.push(rest + trim_end(visible_chars(l.cells@))), Seq::empty())
        }
    }
}

/// The strings of `v`, as character sequences.
pub open spec fn texts(v: Seq<String>) -> Seq<Seq<char>> {
    v.map_values(|s: String| s@)
}

/// `v` without the empty strings at its end.
pub open spec fn drop_empty_tail(v: Seq<Seq<char>>) -> Seq<Seq<char>>
    decreases v.len(),
{
    if v.len() > 0 && v.last().len() == 0 { drop_empty_tail(v.drop_last()) } else { v }
}

impl TextUnwrapper {
    pub fn new() -> (u: Self)
        ensures
            u.wrapped_line@ == Seq::<char>::empty(),
    {
        TextUnwrapper { wrapped_line: Vec::new() }
    }

    /// Reads `line`: a row that wraps extends the logical line; one that
    /// does not ends it (its text trimmed at the end), and the logical line
    /// is returned.
    pub fn push(&mut self, line: &Line) -> (r: Option<String>)
        ensures
            line.wrapped ==> r is None && final(self).wrapped_line@ == old(self).wrapped_line@ + visible_chars(line.cells@),
            !line.wrapped ==> (r matches Some(s) && s@ == old(self).wrapped_line@ + trim_end(visible_chars(line.cells@))
                && final(self).wrapped_line@ == Seq::<char>::empty()),
    {
        let mut text = line.chars();
        if line.wrapped {
            push_chars(&mut self.wrapped_line, text.as_slice());
            None
        } else {
            trim_end_chars(&mut text);
            push_chars(&mut self.wrapped_line, text.as_slice());
            let s = string_from_chars(self.wrapped_line.as_slice());
            self.wrapped_line = Vec::new();
            Some(s)
        }
    }

    /// The partial logical line, if it is not empty.
    pub fn flush(self) -> (r: Option<String>)
        ensures
            self.wrapped_line@.len() == 0 ==> r is None,
            self.wrapped_line@.len() > 0 ==> (r matches Some(s) && s@ == self.wrapped_line@),
    {
        if self.wrapped_line.len() == 0 {
            None
        } else {
            Some(string_from_chars(self.wrapped_line.as_slice()))
        }
    }

    /// Reads `lines` in order and appends the logical lines they complete to `out`.
    fn push_all(&mut self, lines: &[Line], out: &mut Vec<String>)
        ensures
            texts(final(out)@) == texts(old(out)@) + unwrapped(old(self).wrapped_line@, lines@).0,
            final(self).wrapped_line@ == unwrapped(old(self).wrapped_line@, lines@).1,
    {
        let mut i: usize = 0;
        while i < lines.len()
            invariant
                i <= lines@.len(),
                texts(out@) == texts(old(out)@) + unwrapped(old(self).wrapped_line@, lines@.take(i as int)).0,
                self.wrapped_line@ == unwrapped(old(self).wrapped_line@, lines@.take(i as int)).1,
            decreases lines@.len() - i,
        {
            assert(lines@.take(i + 1).drop_last() =~= lines@.take(i as int));
            assert(lines@.take(i + 1).last() == lines@[i as int]);
            let ghost before = out@;
            match self.push(&lines[i]) {
                Some(s) => {
                    out.push(s);
                    assert(texts(out@) =~= texts(before).push(s@));
                },
                None => {},
            }
            i += 1;
        }
        assert(lines@.take(i as int) =~= lines@);
    }
}

impl Default for TextUnwrapper {
    fn default() -> (u: Self)
        ensures
            u.wrapped_line@ == Seq::<char>::empty(),
    {
        TextUnwrapper::new()
    }
}

/// The control sequence that asks a terminal to resize to `cols` x `rows`.
pub open spec fn resize_request(cols: u16, rows: u16) -> Seq<char> {
    seq!['\u{1b}', '[', '8', ';'] + decimal(rows as nat) + seq![';'] + decimal(cols as nat) + seq!['t']
}

/// Collects the text that a terminal scrolls out of its scrollback, and at
/// the end what is left in it, as logical lines.
#[derive(Debug)]
pub struct TextCollector {
    pub vt: Vt,
    pub unwrapper: TextUnwrapper,
}

impl TextCollector {
    pub fn new(vt: Vt) -> (c: Self)
        ensures
            c.vt == vt,
            c.unwrapper.wrapped_line@ == Seq::<char>::empty(),
    {
        TextCollector { vt, unwrapper: TextUnwrapper::new() }
    }

    /// Feeds `s` to the terminal and returns the logical lines completed by
    /// the lines that left its scrollback.
    pub fn feed_str(&mut self, s: &str) -> (r: Vec<String>)
        requires
            old(self).vt.wf(),
        ensures
            final(self).vt.wf(),
            final(self).vt.terminal.cols == old(self).vt.terminal.cols,
            final(self).vt.terminal.rows == old(self).vt.terminal.rows,
            exists|fed: Vt, c: Changes| {
                &&& #[trigger] old(self).vt.fed_chars(&fed, s@)
                &&& #[trigger] fed.reported(&final(self).vt, c)
                &&& unwrapped(old(self).unwrapper.wrapped_line@, c.scrollback@) == (texts(r@), final(self).unwrapper.wrapped_line@)
            },
    {
        let changes = self.vt.feed_str(s);
        let mut out: Vec<String> = Vec::new();
        self.unwrapper.push_all(changes.scrollback.as_slice(), &mut out);
        assert(texts(out@) =~= unwrapped(old(self).unwrapper.wrapped_line@, changes.scrollback@).0);
        out
    }

    /// Asks the terminal (by a control sequence) to resize to `cols` x
    /// `rows`, and returns the logical lines completed by the lines that
    /// left its scrollback.
    pub fn resize(&mut self, cols: u16, rows: u16) -> (r: Vec<String>)
        requires
            old(self).vt.wf(),
        ensures
            final(self).vt.wf(),
            exists|fed: Vt, c: Changes| {
                &&& #[trigger] old(self).vt.fed_chars(&fed, resize_request(cols, rows))
                &&& #[trigger] fed.reported(&final(self).vt, c)
                &&& unwrapped(old(self).unwrapper.wrapped_line@, c.scrollback@) == (texts(r@), final(self).unwrapper.wrapped_line@)
            },
    {
        let mut seq: Vec<char> = Vec::new();
        seq.push('\u{1b}');
        seq.push('[');
        seq.push('8');
        seq.push(';');
        push_decimal(&mut seq, rows as u32);
        seq.push(';');
        push_decimal(&mut seq, cols as u32);
        seq.push('t');
        assert(seq@ =~= resize_request(cols, rows));
        let text = string_from_chars(seq.as_slice());
        self.feed_str(text.as_str())
    }

    /// The logical lines left: those of all lines of the terminal, after the
    /// partial one, without the empty ones at the end.
    pub fn flush(self) -> (r: Vec<String>)
        ensures
            texts(r@) == drop_empty_tail({
                let (done, rest) = unwrapped(self.unwrapper.wrapped_line@, self.vt.terminal.buffer.lines@);
                if rest.len() > 0 { done.push(rest) } else { done }
            }),
    {
        let mut unwrapper = self.unwrapper;
        let mut lines: Vec<String> = Vec::new();
        unwrapper.push_all(self.vt.lines(), &mut lines);
        let ghost rest = unwrapper.wrapped_line@;
        match unwrapper.flush() {
            Some(s) => lines.push(s),
            None => {},
        }
        let ghost full = texts(lines@);
        assert(full =~= ({
            let (done, rest) = unwrapped(self.unwrapper.wrapped_line@, self.vt.terminal.buffer.lines@);
            if rest.len() > 0 { done.push(rest) } else { done }
        }));
        while lines.len() > 0 && lines[lines.len() - 1].as_str().is_empty()
            invariant
                drop_empty_tail(texts(lines@)) == drop_empty_tail(full),
            decreases lines@.len(),
        {
            let ghost before = lines@;
            let n = lines.len() - 1;
            lines.truncate(n);
            assert(texts(lines@) =~= texts(before).drop_last());
        }
        lines
    }
}

} // verus!
