use crate::cursor::Cursor;
use crate::dump::{dump, encode_all};
use crate::terminal_dump::{concat, lemma_encode_all};
use crate::line::Line;
use crate::parser::{Parser, spec_parser_dump};
use crate::terminal::{BufferType, Terminal, limit_ok, within_limit};
use crate::text::{chars_of, push_chars, string_from_chars};
use vstd::prelude::*;

verus! {

/// A virtual terminal: a parser feeding a terminal.
#[derive(Debug)]
pub struct Vt {
    pub parser: Parser,
    pub terminal: Terminal,
}

/// The rows of the view that changed, and the lines that left the
/// scrollback of the primary buffer.
#[derive(Debug)]
pub struct Changes {
    pub lines: Vec<usize>,
    pub scrollback: Vec<Line>,
}

/// The settings of a terminal to build.
#[derive(Debug, Copy, Clone)]
pub struct Builder {
    pub size: (usize, usize),
    pub scrollback_limit: Option<usize>,
}

impl Vt {
    pub open spec fn wf(&self) -> bool {
        &&& self.parser.wf()
        &&& self.terminal.wf()
    }

    /// Feeding `input`, as `new`: the parser reads it, and the function it
    /// completes, if any, is executed by the terminal.
    pub open spec fn fed_char(&self, new: &Vt, input: char) -> bool {
        exists|r: Option<crate::function::Function>| #[trigger] crate::parser::spec_feed(self.parser, input, new.parser, r)
            && match r {
                Some(f) => self.terminal.executed(&new.terminal, f),
                None => new.terminal == self.terminal,
            }
    }

    /// Feeding the characters `input` one after the other, as `new`.
    pub open spec fn fed_chars(&self, new: &Vt, input: Seq<char>) -> bool {
        exists|vs: Seq<Vt>| {
            &&& vs.len() == input.len() + 1
            &&& vs[0] == *self
            &&& #[trigger] vs[input.len() as int] == *new
            &&& forall|i: int| 0 <= i < input.len() ==> #[trigger] vs[i].fed_char(&vs[i + 1], input[i])
        }
    }

    /// Reporting the changes, as `new` and `c`: the rows changed since the
    /// last report, in order, none changed afterwards; and the rows
    /// trimmed from the scrollback of the primary buffer.
    pub open spec fn reported(&self, new: &Vt, c: Changes) -> bool {
        &&& new.parser == self.parser
        &&& c.lines@ == crate::dirty_lines::dirty_indices(self.terminal.dirty_lines@, self.terminal.rows as int)
        &&& exists|t: Terminal| {
            &&& #[trigger] self.terminal.collected(&t, c.scrollback@)
            &&& new.terminal == (Terminal { dirty_lines: new.terminal.dirty_lines, ..t })
            &&& new.terminal.dirty_lines@ == Seq::new(self.terminal.rows as nat, |i: int| false)
        }
    }

    /// The scrollback of the active buffer is within the hard limit, 10%
    /// above the limit the terminal was built with.
    /// The lines held: at least the rows of the view; on the primary
    /// screen at most those rows and the scrollback limit with a tenth more
    /// (the point past which it is trimmed back to the limit); on the
    /// alternate screen exactly the rows.
    pub open spec fn lines_bounded(&self) -> bool {
        let n = self.terminal.buffer.lines@.len();
        let rows = self.terminal.rows;
        &&& n >= rows
        &&& self.terminal.active_buffer_type == BufferType::Alternate ==> n == rows
        &&& self.terminal.active_buffer_type == BufferType::Primary ==> match self.terminal.scrollback_limit {
            Some(l) => n <= rows + l + l / 10,
            None => true,
        }
    }

    pub open spec fn trimmed(&self) -> bool {
        &&& !self.terminal.buffer.trim_needed
        &&& within_limit(self.terminal.buffer)
    }

    /// A builder with the default settings.
    pub fn builder() -> (b: Builder)
        ensures
            b == (Builder { size: (80, 24), scrollback_limit: None }),
    {
        Builder::default()
    }

    /// A terminal of `cols` x `rows` with an unlimited scrollback.
    pub fn new(cols: usize, rows: usize) -> (vt: Vt)
        requires
            cols >= 2,
            rows >= 1,
        ensures
            vt.wf(),
            vt.parser.is_fresh(),
            vt.terminal.cols == cols,
            vt.terminal.rows == rows,
            vt.terminal.scrollback_limit.is_none(),
            vt.terminal.cursor == (Cursor { col: 0, row: 0, visible: true }),
    {
        let mut b = Vt::builder();
        b.size(cols, rows);
        b.build()
    }

    /// Feeds one character: the parser reads it, and the terminal executes
    /// the function it completes, if any.
    pub fn feed(&mut self, input: char)
        requires
            old(self).wf(),
        ensures
            final(self).wf(),
            final(self).terminal.cols == old(self).terminal.cols,
            final(self).terminal.rows == old(self).terminal.rows,
            old(self).fed_char(final(self), input),
    {
        let r = self.parser.feed(input);
        match r {
            Some(f) => {
                let ghost g = f;
                self.terminal.execute(f);
                assert(crate::parser::spec_feed(old(self).parser, input, self.parser, Some(g)));
            },
            None => {
                assert(crate::parser::spec_feed(old(self).parser, input, self.parser, None));
            },
        }
    }

    /// Feeds the characters of `s` in order, and returns the rows that
    /// changed and the lines that left the scrollback.
    pub fn feed_str(&mut self, s: &str) -> (c: Changes)
        requires
            old(self).wf(),
        ensures
            final(self).wf(),
            final(self).trimmed(),
            final(self).terminal.cols == old(self).terminal.cols,
            final(self).terminal.rows == old(self).terminal.rows,
            forall|i: int| 0 <= i < c.lines@.len() ==> #[trigger] c.lines@[i] < final(self).terminal.rows,
            final(self).terminal.active_buffer_type == BufferType::Alternate ==> c.scrollback@.len() == 0,
            exists|fed: Vt| #[trigger] old(self).fed_chars(&fed, s@) && fed.reported(final(self), c),
            final(self).lines_bounded(),
    {
        let chars = chars_of(s);
        let ghost mut vs: Seq<Vt> = seq![*self];
        let mut i: usize = 0;
        while i < chars.len()
            invariant
                i <= chars@.len(),
                chars@ == s@,
                self.wf(),
                self.terminal.cols == old(self).terminal.cols,
                self.terminal.rows == old(self).terminal.rows,
                vs.len() == i + 1,
                vs[0] == *old(self),
                vs[i as int] == *self,
                forall|j: int| 0 <= j < i ==> #[trigger] vs[j].fed_char(&vs[j + 1], chars@[j]),
            decreases chars@.len() - i,
        {
            self.feed(chars[i]);
            proof {
                let v0 = vs;
                vs = vs.push(*self);
                assert forall|j: int| 0 <= j < i + 1 implies #[trigger] vs[j].fed_char(&vs[j + 1], chars@[j]) by {
                    if j < i {
                        assert(vs[j] == v0[j] && vs[j + 1] == v0[j + 1]);
                    }
                }
            }
            i += 1;
        }
        let ghost fed = *self;
        proof {
            assert(vs[s@.len() as int] == fed);
            assert(old(self).fed_chars(&fed, s@));
        }
        let c = self.changes();
        proof { lemma_scrollback_bound(*self); }
        c
    }

    /// The rows that changed and the lines that left the scrollback since
    /// the last call.
    fn changes(&mut self) -> (c: Changes)
        requires
            old(self).wf(),
        ensures
            final(self).wf(),
            final(self).trimmed(),
            final(self).parser == old(self).parser,
            final(self).terminal.cols == old(self).terminal.cols,
            final(self).terminal.rows == old(self).terminal.rows,
            final(self).terminal.active_buffer_type == old(self).terminal.active_buffer_type,
            c.lines@ == crate::dirty_lines::dirty_indices(old(self).terminal.dirty_lines@, old(self).terminal.rows as int),
            forall|i: int| 0 <= i < c.lines@.len() ==> #[trigger] c.lines@[i] < final(self).terminal.rows,
            old(self).terminal.active_buffer_type == BufferType::Alternate ==> c.scrollback@.len() == 0,
            old(self).reported(final(self), c),
    {
        let lines = self.terminal.changes();
        let scrollback = self.terminal.gc();
        proof {
            let t = Terminal { dirty_lines: old(self).terminal.dirty_lines, ..self.terminal };
            assert(old(self).terminal.collected(&t, scrollback@));
            assert(self.terminal == (Terminal { dirty_lines: self.terminal.dirty_lines, ..t }));
            assert(self.terminal.dirty_lines@ == Seq::new(old(self).terminal.rows as nat, |i: int| false));
        }
        proof { crate::dirty_lines::lemma_dirty_indices_below(old(self).terminal.dirty_lines@, old(self).terminal.rows as int); }
        let c = Changes { lines, scrollback };
        proof {
            let t = Terminal { dirty_lines: old(self).terminal.dirty_lines, ..self.terminal };
            assert(old(self).terminal.collected(&t, c.scrollback@));
        }
        c
    }

    /// The size of the view: (columns, rows).
    pub fn size(&self) -> (s: (usize, usize))
        ensures
            s == (self.terminal.cols, self.terminal.rows),
    {
        self.terminal.size()
    }

    /// Changes the size to `cols` x `rows` (see `Terminal::resize`), and
    /// returns the rows that changed (all of them) and the lines that left
    /// the scrollback.
    pub fn resize(&mut self, cols: usize, rows: usize) -> (c: Changes)
        requires
            old(self).wf(),
            cols >= 2,
            rows >= 1,
        ensures
            final(self).wf(),
            final(self).trimmed(),
            final(self).terminal.cols == cols,
            final(self).terminal.rows == rows,
            c.lines@ == Seq::new(rows as nat, |i: int| i as usize),
            final(self).parser == old(self).parser,
            exists|t: Terminal| #[trigger] old(self).terminal.resized(&t, cols, rows)
                && (Vt { parser: old(self).parser, terminal: t }).reported(final(self), c),
            final(self).lines_bounded(),
    {
        self.terminal.resize(cols, rows);
        let ghost mid = *self;
        let ghost flags = self.terminal.dirty_lines@;
        let c = self.changes();
        proof {
            assert(old(self).terminal.resized(&mid.terminal, cols, rows));
            assert(mid == (Vt { parser: old(self).parser, terminal: mid.terminal }));
        }
        proof {
            crate::dirty_lines::lemma_all_dirty(flags, rows as int);
            lemma_scrollback_bound(*self);
        }
        c
    }

    /// The rows of the view.
    pub fn view(&self) -> (v: &[Line])
        requires
            self.wf(),
        ensures
            v@ == self.terminal.buffer.lines@.subrange(self.terminal.buffer.top(), self.terminal.buffer.lines@.len() as int),
    {
        self.terminal.view()
    }

    /// All lines: the scrollback, then the view.
    pub fn lines(&self) -> (v: &[Line])
        ensures
            v@ == self.terminal.buffer.lines@,
    {
        self.terminal.lines()
    }

    /// Row `n` of the view.
    pub fn line(&self, n: usize) -> (l: &Line)
        requires
            self.wf(),
            n < self.terminal.rows,
        ensures
            *l == self.terminal.buffer.row(n as int),
    {
        self.terminal.line(n)
    }

    /// The text of the primary buffer: one string per logical line, with the
    /// white space at its end trimmed.
    pub fn text(&self) -> (t: Vec<String>)
        ensures
            t@.len() == crate::buffer::text_from(self.terminal.spec_primary().lines@, Seq::empty()).len(),
            forall|i: int| 0 <= i < t@.len() ==> #[trigger] t@[i]@
                == crate::buffer::text_from(self.terminal.spec_primary().lines@, Seq::empty())[i],
    {
        self.terminal.text()
    }

    /// The cursor.
    pub fn cursor(&self) -> (c: Cursor)
        ensures
            c == self.terminal.cursor,
    {
        self.terminal.cursor()
    }

    /// Whether the cursor keys send application sequences.
    pub fn cursor_key_app_mode(&self) -> (b: bool)
        ensures
            b == (self.terminal.cursor_keys_mode == crate::terminal::CursorKeysMode::Application),
    {
        self.terminal.cursor_keys_app_mode()
    }

    /// Whether the state can be dumped: the parameters of a dump fit in `u16`.
    pub fn can_dump(&self) -> (b: bool)
        ensures
            b == self.terminal.dump_fits(),
    {
        self.terminal.can_dump()
    }

    /// The input that brings a fresh terminal of the same size into this
    /// state: the terminal's functions, then the parser's partial sequence.
    pub fn dump(&self) -> (s: String)
        requires
            self.wf(),
            self.terminal.dump_fits(),
        ensures
            s@ == concat(self.terminal.dump_texts()) + spec_parser_dump(self.parser),
    {
        let funs = self.terminal.dump();
        let text = dump(funs.as_slice());
        proof {
            lemma_encode_all(funs@);
        }
        let mut out = chars_of(text.as_str());
        let mut rest: Vec<char> = Vec::new();
        self.parser.dump_to(&mut rest);
        push_chars(&mut out, rest.as_slice());
        assert(out@ == encode_all(funs@) + spec_parser_dump(self.parser));
        string_from_chars(out.as_slice())
    }
}

impl Builder {
    /// Sets the size to `cols` x `rows`.
    pub fn size(&mut self, cols: usize, rows: usize) -> (r: &mut Self)
        ensures
            *r == (Builder { size: (cols, rows), ..*old(self) }),
            *final(self) == *final(r),
    {
        self.size = (cols, rows);
        self
    }

    /// Limits the scrollback to `limit` lines.
    pub fn scrollback_limit(&mut self, limit: usize) -> (r: &mut Self)
        ensures
            *r == (Builder { scrollback_limit: Some(limit), ..*old(self) }),
            *final(self) == *final(r),
    {
        self.scrollback_limit = Some(limit);
        self
    }

    /// A fresh terminal with these settings.
    pub fn build(&self) -> (vt: Vt)
        requires
            self.size.0 >= 2,
            self.size.1 >= 1,
            limit_ok(self.scrollback_limit),
        ensures
            vt.wf(),
            vt.parser.is_fresh(),
            vt.terminal.cols == self.size.0,
            vt.terminal.rows == self.size.1,
            vt.terminal.scrollback_limit == self.scrollback_limit,
            vt.terminal.cursor == (Cursor { col: 0, row: 0, visible: true }),
    {
        Vt { parser: Parser::new(), terminal: Terminal::new(self.size, self.scrollback_limit) }
    }
}

impl Default for Builder {
    /// A terminal of 80 x 24 with an unlimited scrollback.
    fn default() -> (b: Builder)
        ensures
            b == (Builder { size: (80, 24), scrollback_limit: None }),
    {
        Builder { size: (80, 24), scrollback_limit: None }
    }
}

/// After feeding or resizing, the active buffer holds at least the rows of
/// the view; beyond them, the alternate buffer holds nothing and the
/// primary one at most its limit and 10% more.
pub proof fn lemma_scrollback_bound(vt: Vt)
    requires
        vt.wf(),
        vt.trimmed(),
    ensures
        vt.terminal.buffer.lines@.len() >= vt.terminal.rows,
        vt.terminal.active_buffer_type == BufferType::Alternate ==> vt.terminal.buffer.lines@.len() == vt.terminal.rows,
        vt.terminal.active_buffer_type == BufferType::Primary ==> match vt.terminal.scrollback_limit {
            Some(l) => vt.terminal.buffer.lines@.len() <= vt.terminal.rows + l + l / 10,
            None => true,
        },
{
}

} // verus!
