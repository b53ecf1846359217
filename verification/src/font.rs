//! Text measurement against a fixed typeface and point size.
//!
//! A `FontSizer` answers the two questions the generator asks of typography:
//! how wide a phrase renders, and how tall a line is.  It carries a table of
//! per-character advance widths in integer units; the width of a phrase is the
//! sum of the advances of its characters, and characters absent from the table
//! contribute nothing.

use vstd::prelude::*;

verus! {

/// Measures rendered text: a table of per-character advance widths plus the
/// vertical advance of one line, all in the same integer unit as the canvas.
pub struct FontSizer {
    /// Advance width of each character the typeface knows; the first entry
    /// for a character wins, and unknown characters measure zero.
    pub advances: Vec<(char, u32)>,
    /// Vertical advance of one line.
    pub line_height: u64,
}

/// The advance width of one character: its first entry in the table, or zero
/// when the table does not know it.
pub open spec fn advance_of(advances: Seq<(char, u32)>, c: char) -> int
    decreases advances.len(),
{
    if advances.len() == 0 {
        0
    } else if advances[0].0 == c {
        advances[0].1 as int
    } else {
        advance_of(advances.drop_first(), c)
    }
}

/// The exact rendered width of a text: the sum of its characters' advances.
pub open spec fn width_of(advances: Seq<(char, u32)>, text: Seq<char>) -> int
    decreases text.len(),
{
    if text.len() == 0 {
        0
    } else {
        advance_of(advances, text[0]) + width_of(advances, text.drop_first())
    }
}

/// What `get_width` reports: the exact width, saturated at `u64::MAX`.
pub open spec fn measured(advances: Seq<(char, u32)>, text: Seq<char>) -> int {
    if width_of(advances, text) <= u64::MAX {
        width_of(advances, text)
    } else {
        u64::MAX as int
    }
}

pub proof fn lemma_advance_of_nonneg(advances: Seq<(char, u32)>, c: char)
    ensures
        advance_of(advances, c) >= 0,
    decreases advances.len(),
{
    if advances.len() > 0 && advances[0].0 != c {
        lemma_advance_of_nonneg(advances.drop_first(), c);
    }
}

pub proof fn lemma_width_of_nonneg(advances: Seq<(char, u32)>, text: Seq<char>)
    ensures
        width_of(advances, text) >= 0,
    decreases text.len(),
{
    if text.len() > 0 {
        lemma_advance_of_nonneg(advances, text[0]);
        lemma_width_of_nonneg(advances, text.drop_first());
    }
}

/// Appending one character adds its advance to the width.
pub proof fn lemma_width_of_push(advances: Seq<(char, u32)>, text: Seq<char>, c: char)
    ensures
        width_of(advances, text.push(c)) == width_of(advances, text) + advance_of(advances, c),
    decreases text.len(),
{
    if text.len() == 0 {
        assert(text.push(c)[0] == c);
        assert(text.push(c).drop_first() =~= Seq::<char>::empty());
        assert(width_of(advances, Seq::<char>::empty()) == 0);
    } else {
        assert(text.push(c)[0] == text[0]);
        assert(text.push(c).drop_first() =~= text.drop_first().push(c));
        lemma_width_of_push(advances, text.drop_first(), c);
    }
}

impl FontSizer {
    pub fn new(advances: Vec<(char, u32)>, line_height: u64) -> (r: FontSizer)
        requires
            line_height >= 1,
        ensures
            r.advances == advances,
            r.line_height == line_height,
    {
        FontSizer { advances, line_height }
    }

    /// The advance width of one character, by its first entry in the table.
    fn advance_for(&self, c: char) -> (a: u32)
        ensures
            a as int == advance_of(self.advances@, c),
    {
        let n: usize = self.advances.len();
        proof {
            assert(self.advances@.skip(0) =~= self.advances@);
        }
        let mut j: usize = 0;
        while j < n
            invariant
                j <= n,
                n == self.advances@.len(),
                advance_of(self.advances@, c) == advance_of(self.advances@.skip(j as int), c),
            decreases n - j,
        {
            let entry: (char, u32) = self.advances[j];
            proof {
                assert(self.advances@.skip(j as int)[0] == self.advances@[j as int]);
            }
            if entry.0 == c {
                return entry.1;
            }
            proof {
                assert(self.advances@.skip(j as int).drop_first() =~= self.advances@.skip(
                    j as int + 1,
                ));
            }
            j += 1;
        }
        proof {
            assert(self.advances@.skip(n as int) =~= Seq::<(char, u32)>::empty());
        }
        0
    }

    /// The rendered width of a phrase: the sum of its characters' advances,
    /// saturated at `u64::MAX`.
    pub fn get_width(&self, phrase: &str) -> (w: u64)
        ensures
            w as int == measured(self.advances@, phrase@),
    {
        let n: usize = phrase.unicode_len();
        let mut w: u64 = 0;
        let mut i: usize = 0;
        while i < n
            invariant
                i <= n,
                n == phrase@.len(),
                w as int == measured(self.advances@, phrase@.take(i as int)),
            decreases n - i,
        {
            let c = phrase.get_char(i);
            let a: u32 = self.advance_for(c);
            proof {
                assert(phrase@.take(i as int + 1) =~= phrase@.take(i as int).push(
                    phrase@[i as int],
                ));
                lemma_width_of_push(self.advances@, phrase@.take(i as int), phrase@[i as int]);
                lemma_width_of_nonneg(self.advances@, phrase@.take(i as int));
                lemma_advance_of_nonneg(self.advances@, phrase@[i as int]);
            }
            if a as u64 > u64::MAX - w {
                w = u64::MAX;
            } else {
                w = w + a as u64;
            }
            i += 1;
        }
        proof {
            assert(phrase@.take(n as int) =~= phrase@);
        }
        w
    }

    /// The vertical advance of one line.
    pub fn get_height(&self) -> (h: u64)
        ensures
            h == self.line_height,
    {
        self.line_height
    }
}

} // verus!
