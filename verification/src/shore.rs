//! The shore builder: the greedy line packer.
//!
//! A shore covers a canvas line by line: at each step the packer asks the
//! text table for an item that fits the remaining width of the line, places
//! it at the cursor, and advances; a line closes the instant an item would
//! overflow the canvas, with no backtracking.
//!
//! Content selection is driven by a noise field sampled at the packing
//! cursor.  The noise field lives outside the library (it computes in
//! floating point), so the builder works as a state machine: `next_probe`
//! names the coordinate whose selector value it needs, the caller samples
//! its field there, clamps the value into `[0, SELECTOR_SCALE]`, and feeds
//! it back.  Every placement decision, and the placed contents themselves,
//! stay here: each line starts its cursor at the left edge, and a line
//! closes only when the produced item would overflow the canvas.

use vstd::arithmetic::div_mod::lemma_fundamental_div_mod;
use vstd::arithmetic::div_mod::lemma_mod_bound;
use vstd::arithmetic::mul::lemma_mul_inequality;
use vstd::arithmetic::mul::lemma_mul_is_distributive_add;
use vstd::prelude::*;

use crate::SELECTOR_SCALE;
use crate::font::measured;
use crate::font::width_of;
use crate::random::RandomSource;
use crate::text_table::TextTable;
use crate::text_table::ground_outcome;
use crate::text_table::item_outcome;
use crate::text_table::pot_outcome;
use crate::text_table::region_wf;
use crate::words::lemma_width_of_squash_le;
use crate::words::squash;

verus! {

/// Relies on uuid's `Uuid::new_v4`, carried as its 128-bit value: the
/// placement identifier handed to clients.
#[verifier::external_body]
fn fresh_id() -> (r: u128) {
    uuid::Uuid::new_v4().as_u128()
}

/// One placed fragment: its text, its 0-based line, its x-offset, and an
/// identifier assigned once at placement and never reused.
pub struct Item {
    pub text: String,
    pub line: u32,
    pub offset: u64,
    pub id: u128,
}

impl Item {
    pub fn new(text: String, line: u32, offset: u64) -> (r: Item)
        ensures
            r.text == text,
            r.line == line,
            r.offset == offset,
    {
        Item { text, line, offset, id: fresh_id() }
    }
}

/// The ghost model of a generated shore: the canvas it was built for, the
/// measurement table it was measured against, and the decision width of
/// every placed item.
pub struct ShoreModel {
    pub canvas_width: int,
    pub line_count: int,
    pub advances: Seq<(char, u32)>,
    pub widths: Seq<int>,
}

/// Well-formedness of placed contents against a model: every item lies on a
/// canvas line; its decision width is at least the measured width of its
/// text with the spaces squashed out; its offset plus its decision width
/// stays within the canvas; lines never decrease; neighbours on one line
/// sit flush against each other; and the first item of every line sits at
/// the left edge.
pub open spec fn contents_wf(items: Seq<Item>, m: ShoreModel) -> bool {
    &&& items.len() == m.widths.len()
    &&& forall|k: int| 0 <= k < items.len() ==> (#[trigger] items[k]).line < m.line_count
    &&& forall|k: int|
        0 <= k < items.len() ==> #[trigger] m.widths[k] >= width_of(
            m.advances,
            squash(items[k].text@),
        )
    &&& forall|k: int|
        0 <= k < items.len() ==> (#[trigger] items[k]).offset + m.widths[k] <= m.canvas_width
    &&& forall|k: int|
        0 <= k < items.len() - 1 ==> (#[trigger] items[k]).line <= items[k + 1].line
    &&& forall|k: int|
        0 <= k < items.len() - 1 && (#[trigger] items[k]).line == items[k + 1].line ==> items[k
            + 1].offset == items[k].offset + m.widths[k]
    &&& forall|k: int|
        0 <= k < items.len() && (k == 0 || items[k - 1].line != (#[trigger] items[k]).line)
            ==> items[k].offset == 0
}

/// Debug records align one to one with production placements.
pub open spec fn debug_aligned(debug: Seq<Item>, items: Seq<Item>) -> bool {
    &&& debug.len() == items.len()
    &&& forall|k: int| 0 <= k < items.len() ==> (#[trigger] debug[k]).line == items[k].line
    &&& forall|k: int| 0 <= k < items.len() ==> (#[trigger] debug[k]).offset == items[k].offset
}

/// A generated shore: the placed fragments, in line order, flush-packed.
pub struct Shore {
    pub contents: Vec<Item>,
    pub model: Ghost<ShoreModel>,
}

impl Shore {
    pub open spec fn wf(self) -> bool {
        contents_wf(self.contents@, self.model@)
    }
}

/// A generated shore together with its audit trail: a parallel sequence of
/// records carrying the region name resolved for each placement, recorded
/// from the same draws as the production placements.
pub struct DebugShore {
    pub contents: Vec<Item>,
    pub debug_contents: Vec<Item>,
    pub model: Ghost<ShoreModel>,
}

impl DebugShore {
    pub open spec fn wf(self) -> bool {
        &&& contents_wf(self.contents@, self.model@)
        &&& debug_aligned(self.debug_contents@, self.contents@)
    }
}

/// Coverage: every placed fragment starts at a non-negative offset, stays
/// within the canvas width even measured by its space-squashed text, and
/// lies on a canvas line.
pub proof fn lemma_shore_coverage(s: &Shore)
    requires
        s.wf(),
    ensures
        forall|k: int|
            0 <= k < s.contents@.len() ==> {
                &&& (#[trigger] s.contents@[k]).offset >= 0
                &&& s.contents@[k].offset + width_of(
                    s.model@.advances,
                    squash(s.contents@[k].text@),
                ) <= s.model@.canvas_width
                &&& s.contents@[k].line < s.model@.line_count
            },
{
    assert forall|k: int| 0 <= k < s.contents@.len() implies {
        &&& (#[trigger] s.contents@[k]).offset >= 0
        &&& s.contents@[k].offset + width_of(s.model@.advances, squash(s.contents@[k].text@))
            <= s.model@.canvas_width
        &&& s.contents@[k].line < s.model@.line_count
    } by {
        assert(s.model@.widths[k] >= width_of(s.model@.advances, squash(s.contents@[k].text@)));
        assert(s.contents@[k].offset + s.model@.widths[k] <= s.model@.canvas_width);
    }
}

/// Contiguity: on one line each fragment starts exactly where the previous
/// one ends, so offsets strictly increase wherever decision widths are
/// positive.
pub proof fn lemma_shore_contiguity(s: &Shore)
    requires
        s.wf(),
    ensures
        forall|k: int|
            0 <= k < s.contents@.len() - 1 && (#[trigger] s.contents@[k]).line == s.contents@[k
                + 1].line ==> {
                &&& s.contents@[k + 1].offset == s.contents@[k].offset + s.model@.widths[k]
                &&& (s.model@.widths[k] > 0 ==> s.contents@[k + 1].offset > s.contents@[k].offset)
            },
{
}

/// Debug alignment: the audit trail is index-aligned with the production
/// contents, record for record.
pub proof fn lemma_debug_alignment(s: &DebugShore)
    requires
        s.wf(),
    ensures
        s.debug_contents@.len() == s.contents@.len(),
        forall|k: int|
            0 <= k < s.contents@.len() ==> (#[trigger] s.debug_contents@[k]).line
                == s.contents@[k].line && s.debug_contents@[k].offset == s.contents@[k].offset,
{
}

/// Line starts: the first fragment of every line sits at the left edge of
/// the canvas.
pub proof fn lemma_shore_line_starts(s: &Shore)
    requires
        s.wf(),
    ensures
        forall|k: int|
            0 <= k < s.contents@.len() && (k == 0 || s.contents@[k - 1].line != (
            #[trigger] s.contents@[k]).line) ==> s.contents@[k].offset == 0,
{
}

/// The coordinate whose selector value the builder needs next from its
/// caller's noise field.
pub struct Probe {
    pub x: u64,
    pub y: u64,
}

/// How many lines a canvas holds: its height over the line height,
/// saturated at `u32::MAX`.
pub open spec fn line_count_for(canvas_height: int, line_height: int) -> int {
    let q = canvas_height / line_height;
    if q <= u32::MAX {
        q
    } else {
        u32::MAX as int
    }
}

/// A packing step that closed the line: an item the table produced for the
/// remaining budget would have overflowed the canvas, so nothing was placed
/// and the cursor moved to the left edge of the next line.
pub open spec fn closed_line_step(
    pre: ShoreBuilder,
    post: ShoreBuilder,
    table: TextTable,
    selector: int,
) -> bool {
    &&& post.line == pre.line + 1
    &&& post.x == 0
    &&& post.contents@ == pre.contents@
    &&& post.debug_contents@ == pre.debug_contents@
    &&& exists|it: crate::text_table::Item|
        {
            &&& #[trigger] item_outcome(
                table,
                table.regions@[table.weighted_index.spec_sample(selector)],
                pre.budget(),
                it,
            )
            &&& pre.x + it.width > pre.canvas_width
        }
}

/// A packing step that placed one item at the cursor: the new last fragment
/// sits at the old cursor on the old line, its text is an item the table
/// produced for the old budget, and the cursor advanced by that item's
/// width.
pub open spec fn placed_step(
    pre: ShoreBuilder,
    post: ShoreBuilder,
    table: TextTable,
    selector: int,
) -> bool {
    &&& post.line == pre.line
    &&& post.contents@.len() == pre.contents@.len() + 1
    &&& post.contents@.subrange(0, pre.contents@.len() as int) == pre.contents@
    &&& post.contents@.last().line == pre.line
    &&& post.contents@.last().offset == pre.x
    &&& exists|it: crate::text_table::Item|
        {
            &&& #[trigger] item_outcome(
                table,
                table.regions@[table.weighted_index.spec_sample(selector)],
                pre.budget(),
                it,
            )
            &&& post.contents@.last().text == it.text
            &&& post.x == pre.x + it.width
        }
    &&& pre.debug ==> {
        &&& post.debug_contents@.len() == pre.debug_contents@.len() + 1
        &&& post.debug_contents@.subrange(0, pre.debug_contents@.len() as int)
            == pre.debug_contents@
        &&& post.debug_contents@.last().text@ == table.regions@[table.weighted_index.spec_sample(
            selector,
        )].name@
    }
    &&& !pre.debug ==> post.debug_contents@ == pre.debug_contents@
}

/// The stepwise shore builder: holds the packing cursor and the contents
/// placed so far, and asks its caller for one noise sample at a time.
pub struct ShoreBuilder {
    pub canvas_width: u64,
    pub canvas_height: u64,
    pub line_height: u64,
    pub line_count: u32,
    pub line: u32,
    pub x: u64,
    pub debug: bool,
    pub contents: Vec<Item>,
    pub debug_contents: Vec<Item>,
    pub widths: Ghost<Seq<int>>,
    pub advances: Ghost<Seq<(char, u32)>>,
}

impl ShoreBuilder {
    pub open spec fn model(self) -> ShoreModel {
        ShoreModel {
            canvas_width: self.canvas_width as int,
            line_count: self.line_count as int,
            advances: self.advances@,
            widths: self.widths@,
        }
    }

    /// Whether the canvas is fully packed.
    pub open spec fn done(self) -> bool {
        self.line == self.line_count
    }

    /// The width budget left on the current line.
    pub open spec fn budget(self) -> int {
        if self.x <= self.canvas_width {
            self.canvas_width - self.x
        } else {
            0
        }
    }

    pub open spec fn wf(self) -> bool {
        &&& contents_wf(self.contents@, self.model())
        &&& self.line <= self.line_count
        &&& self.canvas_width < u64::MAX
        &&& self.line_height >= 1
        &&& self.line_count as int * self.line_height as int <= self.canvas_height as int
        &&& (self.debug ==> debug_aligned(self.debug_contents@, self.contents@))
        &&& (!self.debug ==> self.debug_contents@.len() == 0)
        &&& forall|k: int|
            0 <= k < self.contents@.len() ==> (#[trigger] self.contents@[k]).line <= self.line
        &&& (self.contents@.len() > 0 && self.contents@.last().line == self.line
            ==> self.x as int == self.contents@.last().offset + self.widths@.last())
        &&& (self.contents@.len() == 0 || self.contents@.last().line < self.line ==> self.x == 0)
    }

    /// A builder for a canvas, measuring against the table's collaborator.
    /// The line count is the canvas height over the line height.
    pub fn new(canvas_width: u64, canvas_height: u64, table: &TextTable, debug: bool) -> (b:
        ShoreBuilder)
        requires
            table.wf(),
            canvas_width < u64::MAX,
        ensures
            b.wf(),
            b.contents@.len() == 0,
            b.debug_contents@.len() == 0,
            b.canvas_width == canvas_width,
            b.canvas_height == canvas_height,
            b.line_height == table.font_sizer.line_height,
            b.line_count as int == line_count_for(
                canvas_height as int,
                table.font_sizer.line_height as int,
            ),
            b.line == 0,
            b.x == 0,
            b.debug == debug,
            b.advances@ == table.advances(),
            b.widths@ == Seq::<int>::empty(),
    {
        let line_height: u64 = table.font_sizer.get_height();
        let q: u64 = canvas_height / line_height;
        let line_count: u32 = if q > u32::MAX as u64 {
            u32::MAX
        } else {
            q as u32
        };
        let b = ShoreBuilder {
            canvas_width,
            canvas_height,
            line_height,
            line_count,
            line: 0,
            x: 0,
            debug,
            contents: Vec::new(),
            debug_contents: Vec::new(),
            widths: Ghost(Seq::empty()),
            advances: Ghost(table.font_sizer.advances@),
        };
        proof {
            let h = canvas_height as int;
            let lh = line_height as int;
            lemma_fundamental_div_mod(h, lh);
            lemma_mod_bound(h, lh);
            lemma_mul_inequality(line_count as int, h / lh, lh);
            assert(lh * (h / lh) == (h / lh) * lh) by (nonlinear_arith);
            assert(line_count as int * lh <= h);
        }
        b
    }

    /// What the builder needs next: nothing once the canvas is full, and
    /// otherwise the selector value at the packing cursor.
    pub fn next_probe(&self) -> (p: Option<Probe>)
        requires
            self.wf(),
        ensures
            (p is None) <==> self.done(),
            !self.done() ==> (p matches Some(pr) && pr.x == self.x && pr.y as int == self.line
                as int * self.line_height as int),
    {
        if self.line == self.line_count {
            return None;
        }
        proof {
            let lh = self.line_height as int;
            lemma_mul_inequality(self.line as int + 1, self.line_count as int, lh);
            lemma_mul_is_distributive_add(lh, self.line as int, 1);
            assert((self.line as int + 1) * lh == lh * (self.line as int + 1)) by (
            nonlinear_arith);
            assert(lh * self.line as int == self.line as int * lh) by (nonlinear_arith);
            assert(lh * (self.line as int + 1) == lh * self.line as int + lh * 1) by (
            nonlinear_arith);
            assert(self.line as int * lh + lh <= self.canvas_height as int);
        }
        let y: u64 = (self.line as u64) * self.line_height;
        Some(Probe { x: self.x, y })
    }

    /// One packing step: resolve the selector value to a region, produce an
    /// item for the remaining budget, and either place it at the cursor (in
    /// debug mode also recording the resolved region's name) or, when it
    /// would overflow the canvas, close the line.
    pub fn feed_selector(&mut self, table: &TextTable, selector: u32, source: &mut RandomSource)
        requires
            old(self).wf(),
            !old(self).done(),
            table.wf(),
            table.advances() == old(self).advances@,
            selector <= SELECTOR_SCALE,
        ensures
            final(self).wf(),
            final(self).canvas_width == old(self).canvas_width,
            final(self).canvas_height == old(self).canvas_height,
            final(self).line_height == old(self).line_height,
            final(self).line_count == old(self).line_count,
            final(self).advances@ == old(self).advances@,
            final(self).debug == old(self).debug,
            closed_line_step(*old(self), *final(self), *table, selector as int) || placed_step(
                *old(self),
                *final(self),
                *table,
                selector as int,
            ),
    {
        let region = table.get_region_by_value(selector);
        let budget: u64 = if self.x <= self.canvas_width {
            self.canvas_width - self.x
        } else {
            0
        };
        let it = table.get_item(region, budget, source);
        let ghost git = it;
        let overflow: bool = self.x > self.canvas_width || it.width > self.canvas_width - self.x;
        if overflow {
            self.line = self.line + 1;
            self.x = 0;
            proof {
                assert(budget as int == old(self).budget());
                assert(old(self).x + git.width > old(self).canvas_width);
                assert(item_outcome(
                    *table,
                    table.regions@[table.weighted_index.spec_sample(selector as int)],
                    old(self).budget(),
                    git,
                ));
            }
        } else {
            let w: u64 = it.width;
            let placed = Item::new(it.text, self.line, self.x);
            let ghost prev = self.contents@;
            let ghost prev_widths = self.widths@;
            self.contents.push(placed);
            self.widths = Ghost(self.widths@.push(w as int));
            if self.debug {
                let record = Item::new(region.name.clone(), self.line, self.x);
                let ghost prev_debug = self.debug_contents@;
                self.debug_contents.push(record);
                proof {
                    assert forall|k: int| 0 <= k < self.contents@.len() implies (
                    #[trigger] self.debug_contents@[k]).line == self.contents@[k].line
                        && self.debug_contents@[k].offset == self.contents@[k].offset by {
                        if k < prev.len() {
                            assert(self.debug_contents@[k] == prev_debug[k]);
                            assert(self.contents@[k] == prev[k]);
                        }
                    }
                }
            }
            self.x = self.x + w;
            proof {
                let m = self.model();
                let items = self.contents@;
                let last = items.len() - 1;
                // The decision width is at least the squashed measured width.
                if pot_outcome(*table, budget as int, git) {
                    assert(git.width as int == measured(m.advances, squash(git.text@)));
                    crate::font::lemma_width_of_nonneg(m.advances, squash(git.text@));
                    assert(git.width as int == width_of(m.advances, squash(git.text@)));
                } else {
                    assert(ground_outcome(*region, budget as int, git));
                    let ri = choose|i: int|
                        {
                            &&& 0 <= i < region.items@.len()
                            &&& crate::random::weights_of(region.weighted_index)[i] > 0
                            &&& git == if region.items@[i].width <= budget as int {
                                region.items@[i]
                            } else {
                                region.shortest_item
                            }
                        };
                    assert(region_wf(*region, m.advances));
                    if region.items@[ri].width <= budget as int {
                        assert(git == region.items@[ri]);
                    } else {
                        let si = choose|i: int|
                            0 <= i < region.items@.len() && region.shortest_item
                                == region.items@[i];
                        assert(git == region.items@[si]);
                    }
                    assert(git.width as int == measured(m.advances, git.text@));
                    assert(git.width as int == width_of(m.advances, git.text@));
                    lemma_width_of_squash_le(m.advances, git.text@);
                }
                assert(m.widths[last] >= width_of(m.advances, squash(items[last].text@)));
                assert forall|k: int| 0 <= k < items.len() implies {
                    &&& (#[trigger] items[k]).line < m.line_count
                    &&& #[trigger] m.widths[k] >= width_of(m.advances, squash(items[k].text@))
                    &&& items[k].offset + m.widths[k] <= m.canvas_width
                    &&& items[k].line <= self.line
                } by {
                    if k < last {
                        assert(items[k] == prev[k]);
                        assert(m.widths[k] == prev_widths[k]);
                    }
                }
                assert forall|k: int|
                    0 <= k < items.len() - 1 && (#[trigger] items[k]).line == items[k
                        + 1].line implies items[k + 1].offset == items[k].offset
                    + m.widths[k] by {
                    if k < last - 1 {
                        assert(items[k] == prev[k]);
                        assert(items[k + 1] == prev[k + 1]);
                        assert(m.widths[k] == prev_widths[k]);
                    } else {
                        assert(k == last - 1);
                        assert(items[k] == prev[k]);
                        assert(m.widths[k] == prev_widths[k]);
                    }
                }
                assert forall|k: int|
                    0 <= k < items.len() - 1 implies (#[trigger] items[k]).line <= items[k
                    + 1].line by {
                    if k < last {
                        assert(items[k] == prev[k]);
                    }
                    if k + 1 < last {
                        assert(items[k + 1] == prev[k + 1]);
                    }
                }
                assert forall|k: int|
                    0 <= k < items.len() && (k == 0 || items[k - 1].line != (
                    #[trigger] items[k]).line) implies items[k].offset == 0 by {
                    if k < last {
                        assert(items[k] == prev[k]);
                        if k > 0 {
                            assert(items[k - 1] == prev[k - 1]);
                        }
                    } else {
                        if k > 0 {
                            assert(items[k - 1] == prev[prev.len() - 1]);
                            assert(prev[prev.len() - 1].line < old(self).line);
                        }
                    }
                }
                assert(self.contents@.subrange(0, prev.len() as int) =~= prev);
                assert(budget as int == old(self).budget());
                assert(item_outcome(
                    *table,
                    table.regions@[table.weighted_index.spec_sample(selector as int)],
                    old(self).budget(),
                    git,
                ));
                assert(self.contents@.last().text == git.text);
                assert(self.x as int == old(self).x + git.width);
                if self.debug {
                    assert(self.debug_contents@.subrange(
                        0,
                        old(self).debug_contents@.len() as int,
                    ) =~= old(self).debug_contents@);
                }
            }
        }
    }

    /// The finished shore.
    pub fn into_shore(self) -> (s: Shore)
        requires
            self.wf(),
            self.done(),
            !self.debug,
        ensures
            s.wf(),
            s.contents@ == self.contents@,
            s.model@ == self.model(),
    {
        let ghost m = self.model();
        Shore { contents: self.contents, model: Ghost(m) }
    }

    /// The finished shore with its audit trail.
    pub fn into_debug_shore(self) -> (s: DebugShore)
        requires
            self.wf(),
            self.done(),
            self.debug,
        ensures
            s.wf(),
            s.contents@ == self.contents@,
            s.debug_contents@ == self.debug_contents@,
            s.model@ == self.model(),
    {
        let ghost m = self.model();
        DebugShore {
            contents: self.contents,
            debug_contents: self.debug_contents,
            model: Ghost(m),
        }
    }
}

} // verus!
