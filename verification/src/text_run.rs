//! Batched text runs: adjacent cells of one line that look the same are
//! drawn as one piece of text.
use vstd::prelude::*;

use crate::cell::{char_len, char_utf8_len, lemma_utf8_len_push, utf8_len, CellLook, CellStyle};
use crate::text::push_char;

verus! {

/// A run of cells drawn as one piece of text.
#[derive(Debug)]
pub struct BatchedTextRun {
    /// The line (counted from the top of the shown grid) of the first cell.
    pub start_line: i32,
    /// The column of the first cell.
    pub start_column: i32,
    /// The characters, zero-width characters included.
    pub text: String,
    /// The number of grid cells the run covers.
    pub cell_count: usize,
    /// The style; its length is the UTF-8 length of `text`.
    pub style: CellStyle,
}

/// A text run as a mathematical value.
pub struct RunView {
    pub start_line: i32,
    pub start_column: i32,
    pub text: Seq<char>,
    pub cell_count: nat,
    pub look: CellLook,
}

impl View for BatchedTextRun {
    type V = RunView;

    open spec fn view(&self) -> RunView {
        RunView {
            start_line: self.start_line,
            start_column: self.start_column,
            text: self.text@,
            cell_count: self.cell_count as nat,
            look: self.style.look,
        }
    }
}

impl BatchedTextRun {
    /// The style's length is the UTF-8 length of the text, and the run
    /// covers at least one cell.
    pub open spec fn wf(&self) -> bool {
        self.style.len == utf8_len(self.text@) && self.cell_count >= 1
    }

    /// A run of one cell holding the character `c`, in `style` (whose length
    /// is the UTF-8 length of `c` when it comes from `cell_style`).
    pub fn new_from_char(start_line: i32, start_column: i32, c: char, style: CellStyle) -> (run:
        BatchedTextRun)
        ensures
            run.start_line == start_line,
            run.start_column == start_column,
            run.text@ == seq![c],
            run.cell_count == 1,
            run.style == style,
            style.len == char_len(c) ==> run.wf(),
    {
        let mut text = String::new();
        push_char(&mut text, c);
        proof {
            lemma_utf8_len_push(Seq::<char>::empty(), c);
            assert(seq![c] =~= Seq::<char>::empty().push(c));
        }
        BatchedTextRun { start_line, start_column, text, cell_count: 1, style }
    }

    /// Whether a cell of style `other` looks the same as this run (the
    /// length does not count).
    pub fn can_append(&self, other: &CellStyle) -> (b: bool)
        ensures
            b == (self.style.look == other.look),
    {
        self.style.look == other.look
    }

    /// Appends the character of one more cell.
    pub fn append_char(&mut self, c: char)
        requires
            old(self).style.len + char_len(c) <= usize::MAX,
            old(self).cell_count < usize::MAX,
        ensures
            final(self).text@ == old(self).text@.push(c),
            final(self).cell_count == old(self).cell_count + 1,
            final(self).style.len == old(self).style.len + char_len(c),
            final(self).style.look == old(self).style.look,
            final(self).start_line == old(self).start_line,
            final(self).start_column == old(self).start_column,
            old(self).wf() ==> final(self).wf(),
    {
        self.append_char_internal(c, true);
    }

    /// Appends zero-width characters, which cover no cell of their own.
    pub fn append_zero_width_chars(&mut self, chars: &[char])
        requires
            old(self).style.len + utf8_len(chars@) <= usize::MAX,
        ensures
            final(self).text@ == old(self).text@ + chars@,
            final(self).cell_count == old(self).cell_count,
            final(self).style.len == old(self).style.len + utf8_len(chars@),
            final(self).style.look == old(self).style.look,
            final(self).start_line == old(self).start_line,
            final(self).start_column == old(self).start_column,
            old(self).wf() ==> final(self).wf(),
    {
        let mut i: usize = 0;
        while i < chars.len()
            invariant
                i <= chars.len(),
                self.text@ == old(self).text@ + chars@.take(i as int),
                self.style.len == old(self).style.len + utf8_len(chars@.take(i as int)),
                old(self).style.len + utf8_len(chars@) <= usize::MAX,
                self.cell_count == old(self).cell_count,
                self.style.look == old(self).style.look,
                self.start_line == old(self).start_line,
                self.start_column == old(self).start_column,
                old(self).wf() ==> self.wf(),
            decreases chars.len() - i,
        {
            proof {
                assert(chars@.take(i + 1).drop_last() =~= chars@.take(i as int));
                lemma_utf8_len_prefix(chars@, i + 1);
            }
            self.append_char_internal(chars[i], false);
            i += 1;
            proof {
                assert(self.text@ =~= old(self).text@ + chars@.take(i as int));
                if old(self).wf() {
                    crate::cell::lemma_utf8_len_concat(old(self).text@, chars@.take(i as int));
                }
            }
        }
        proof {
            assert(chars@.take(i as int) =~= chars@);
        }
    }

    fn append_char_internal(&mut self, c: char, counts_cell: bool)
        requires
            old(self).style.len + char_len(c) <= usize::MAX,
            counts_cell ==> old(self).cell_count < usize::MAX,
        ensures
            final(self).text@ == old(self).text@.push(c),
            final(self).cell_count == old(self).cell_count + if counts_cell { 1int } else { 0int },
            final(self).style.len == old(self).style.len + char_len(c),
            final(self).style.look == old(self).style.look,
            final(self).start_line == old(self).start_line,
            final(self).start_column == old(self).start_column,
            old(self).wf() ==> final(self).wf(),
    {
        push_char(&mut self.text, c);
        if counts_cell {
            self.cell_count += 1;
        }
        self.style.len += char_utf8_len(c);
        proof {
            lemma_utf8_len_push(old(self).text@, c);
        }
    }
}

/// The UTF-8 length of a prefix never exceeds that of the whole text.
pub proof fn lemma_utf8_len_prefix(text: Seq<char>, n: int)
    requires
        0 <= n <= text.len(),
    ensures
        utf8_len(text.take(n)) <= utf8_len(text),
    decreases text.len() - n,
{
    if n < text.len() {
        lemma_utf8_len_prefix(text, n + 1);
        assert(text.take(n + 1).drop_last() =~= text.take(n));
    } else {
        assert(text.take(n) =~= text);
    }
}

} // verus!
