//! The text table: the content selector of the generator.
//!
//! A table is loaded once from a corpus: every catalog item is measured,
//! every region gets its narrowest item precomputed as an overflow fallback
//! and a weighted-random index over its item weights, and one deterministic
//! weighted index over the region weights bridges a continuous selector
//! value to a region.  Every pot is split into its tokens.
//!
//! Selection is by continuous selector value (noise-driven, deterministic in
//! the value) or by region name; either way the shared production procedure
//! first tries, with the region's pot chance, to extract a short phrase from
//! a random pot, and otherwise draws a catalog item, falling back to the
//! region's shortest item when the draw is too wide for the budget.

pub mod corpus;
pub mod deterministic_weighted_index;
pub mod weighted_choice;

use vstd::prelude::*;

use self::corpus::Corpus;
use self::deterministic_weighted_index::DeterministicWeightedIndex;
use crate::CHANCE_SCALE;
use crate::SELECTOR_SCALE;
use crate::font::FontSizer;
use crate::font::measured;
use crate::random::RandomSource;
use crate::random::RandomWeightedIndex;
use crate::random::weighted_index_new;
use crate::random::weighted_index_sample;
use crate::random::weights_of;
use crate::sum_of;
use crate::words::space_free;
use crate::words::spec_concat;
use crate::words::spec_join;
use crate::words::spec_split;
use crate::words::split_on_spaces;
use crate::words::join_slice;
use crate::words::concat_slice;
use crate::words::squash;
use crate::words::lemma_split_join;
use crate::words::lemma_split_space_free;
use crate::words::lemma_squash_join;

verus! {

/// The fewest tokens a pot extraction may take.
pub const MIN_WORDS: u32 = 2;

/// The most tokens a pot extraction may take.
pub const DEFAULT_MAX_WORDS: u32 = 4;

/// Why loading a corpus into a text table failed.
#[derive(Clone, Copy, Debug, PartialEq, Eq, Structural)]
pub enum CorpusLoadError {
    /// A region had no catalog items, so no shortest item exists.
    EmptyRegion,
    /// The region weights were unusable: none, zero in total, or heavier
    /// than the cumulative-weight arithmetic carries.
    InvalidRegionWeights,
    /// A region's item weights were unusable: zero in total, or heavier than
    /// the weighted-random index carries.
    InvalidItemWeights,
    /// A region's pot chance lay outside `[0, CHANCE_SCALE]`.
    InvalidPotChance,
    /// Two regions shared one name.
    DuplicateRegionName,
}

/// A measured catalog item: a text and its rendered width.
pub struct Item {
    pub text: String,
    pub width: u64,
}

impl Clone for Item {
    fn clone(&self) -> (r: Self)
        ensures
            r == *self,
    {
        Item { text: self.text.clone(), width: self.width }
    }
}

/// A loaded region: its measured items, the precomputed narrowest item used
/// as overflow fallback, a weighted-random index over the item weights, and
/// the chance of drawing from a pot instead of the catalog.
pub struct Region {
    pub name: String,
    pub items: Vec<Item>,
    pub shortest_item: Item,
    pub weighted_index: RandomWeightedIndex,
    pub pot_chance: u32,
}

/// Well-formedness of a loaded region against a measurement table: at least
/// one item, every width as measured, the shortest item one of the items and
/// no wider than any, the weighted-random index over exactly the items, and
/// a valid pot chance.
pub open spec fn region_wf(r: Region, advances: Seq<(char, u32)>) -> bool {
    &&& r.items@.len() > 0
    &&& forall|i: int|
        0 <= i < r.items@.len() ==> (#[trigger] r.items@[i]).width as int == measured(
            advances,
            r.items@[i].text@,
        )
    &&& exists|i: int| 0 <= i < r.items@.len() && r.shortest_item == r.items@[i]
    &&& forall|i: int|
        0 <= i < r.items@.len() ==> r.shortest_item.width <= (#[trigger] r.items@[i]).width
    &&& weights_of(r.weighted_index).len() == r.items@.len()
    &&& r.pot_chance <= CHANCE_SCALE
}

/// The text table: the loaded regions, the deterministic weighted index over
/// their weights, the token-split pots, and the measurement collaborator.
pub struct TextTable {
    pub regions: Vec<Region>,
    pub weighted_index: DeterministicWeightedIndex,
    pub split_pots: Vec<Vec<String>>,
    pub font_sizer: FontSizer,
}

/// What any catalog selection yields: a positively-weighted catalog item of
/// the region when the drawn one fits the width budget, and the region's
/// shortest item in its stead when it does not.
pub open spec fn ground_outcome(region: Region, max_width: int, it: Item) -> bool {
    exists|i: int|
        {
            &&& 0 <= i < region.items@.len()
            &&& weights_of(region.weighted_index)[i] > 0
            &&& it == if region.items@[i].width <= max_width {
                region.items@[i]
            } else {
                region.shortest_item
            }
        }
}

/// The tokens `start..start + count` of pot `p`.
pub open spec fn pot_slice(t: TextTable, p: int, start: int, count: int) -> Seq<Seq<char>> {
    t.split_pots@[p].deep_view().subrange(start, start + count)
}

/// What any successful pot extraction yields: between `MIN_WORDS` and
/// `DEFAULT_MAX_WORDS` consecutive tokens of one pot joined with single
/// spaces, measured with the spaces squashed out, fitting the width budget.
pub open spec fn pot_outcome(t: TextTable, max_width: int, it: Item) -> bool {
    exists|p: int, start: int, count: int|
        {
            &&& 0 <= p < t.split_pots@.len()
            &&& MIN_WORDS <= count <= DEFAULT_MAX_WORDS
            &&& 0 <= start
            &&& start + count <= t.split_pots@[p]@.len()
            &&& it.text@ == spec_join(#[trigger] pot_slice(t, p, start, count))
            &&& it.width as int == measured(t.advances(), squash(it.text@))
            &&& it.width <= max_width
        }
}

/// Whether every pot is usable for extraction: each has at least
/// `MIN_WORDS` tokens.
pub open spec fn all_pots_long_enough(t: TextTable) -> bool {
    forall|p: int|
        0 <= p < t.split_pots@.len() ==> (#[trigger] t.split_pots@[p])@.len() >= MIN_WORDS
}

/// Whether every admissible pot slice fits the width budget: each run of
/// `MIN_WORDS` up to `DEFAULT_MAX_WORDS` consecutive tokens of any pot
/// (never more tokens than the pot has) measures within the budget with its
/// spaces squashed out.
pub open spec fn all_pot_slices_fit(t: TextTable, max_width: int) -> bool {
    forall|p: int, start: int, count: int|
        0 <= p < t.split_pots@.len() && MIN_WORDS <= count <= DEFAULT_MAX_WORDS && count
            <= t.split_pots@[p]@.len() && 0 <= start && start + count <= t.split_pots@[p]@.len()
            ==> measured(t.advances(), spec_concat(#[trigger] pot_slice(t, p, start, count)))
            <= max_width
}

/// What the shared item production yields for a region.
pub open spec fn item_outcome(t: TextTable, region: Region, max_width: int, it: Item) -> bool {
    pot_outcome(t, max_width, it) || ground_outcome(region, max_width, it)
}

/// The weights of a corpus's regions, in order.
pub open spec fn region_weights(c: Corpus) -> Seq<u32> {
    c.regions@.map_values(|r: corpus::Region| r.weight)
}

/// The weights of one corpus region's items, in order.
pub open spec fn item_weights(r: corpus::Region) -> Seq<u32> {
    r.items@.map_values(|it: corpus::Item| it.weight)
}

/// The load-time invariants of a corpus: regions exist and carry usable
/// weights, every region has items with usable weights, pot chances are
/// valid fractions, and region names are unique.
pub open spec fn corpus_loadable(c: Corpus) -> bool {
    &&& c.regions@.len() > 0
    &&& 0 < sum_of(region_weights(c)) <= u64::MAX
    &&& forall|i: int| 0 <= i < c.regions@.len() ==> (#[trigger] c.regions@[i]).items@.len() > 0
    &&& forall|i: int|
        0 <= i < c.regions@.len() ==> 0 < sum_of(item_weights(#[trigger] c.regions@[i]))
            <= u32::MAX
    &&& forall|i: int|
        0 <= i < c.regions@.len() ==> (#[trigger] c.regions@[i]).pot_chance <= CHANCE_SCALE
    &&& forall|i: int, j: int|
        0 <= i < j < c.regions@.len() ==> c.regions@[i].name@ != c.regions@[j].name@
}

/// How one loaded region reflects its corpus region.
pub open spec fn region_from(r: Region, cr: corpus::Region, advances: Seq<(char, u32)>) -> bool {
    &&& r.name@ == cr.name@
    &&& r.pot_chance == cr.pot_chance
    &&& r.items@.len() == cr.items@.len()
    &&& forall|j: int|
        0 <= j < cr.items@.len() ==> (#[trigger] r.items@[j]).text@ == cr.items@[j].text@
    &&& weights_of(r.weighted_index) == item_weights(cr)
}

/// How a loaded table reflects its corpus: region for region, the
/// deterministic weighted index over exactly the region weights, and every
/// pot split into its tokens.
pub open spec fn table_from(t: TextTable, c: Corpus, font_sizer: FontSizer) -> bool {
    &&& t.wf()
    &&& t.font_sizer == font_sizer
    &&& t.regions@.len() == c.regions@.len()
    &&& forall|i: int|
        0 <= i < c.regions@.len() ==> region_from(
            #[trigger] t.regions@[i],
            c.regions@[i],
            font_sizer.advances@,
        )
    &&& t.weighted_index.cumulative_weights@.len() == c.regions@.len()
    &&& t.weighted_index.total as int == sum_of(region_weights(c))
    &&& forall|i: int|
        0 <= i < c.regions@.len() ==> (#[trigger] t.weighted_index.cumulative_weights@[i]) as int
            == sum_of(region_weights(c).take(i + 1))
    &&& t.split_pots@.len() == c.pots@.len()
    &&& forall|p: int|
        0 <= p < c.pots@.len() ==> (#[trigger] t.split_pots@[p]).deep_view() == spec_split(
            c.pots@[p]@,
        )
}

/// Which violation each load error reports.
pub open spec fn corpus_load_failure(c: Corpus, e: CorpusLoadError) -> bool {
    match e {
        CorpusLoadError::EmptyRegion => exists|i: int|
            0 <= i < c.regions@.len() && (#[trigger] c.regions@[i]).items@.len() == 0,
        CorpusLoadError::InvalidRegionWeights => c.regions@.len() == 0 || sum_of(region_weights(c))
            == 0 || sum_of(region_weights(c)) > u64::MAX,
        CorpusLoadError::InvalidItemWeights => exists|i: int|
            0 <= i < c.regions@.len() && (sum_of(item_weights(#[trigger] c.regions@[i])) == 0
                || sum_of(item_weights(c.regions@[i])) > u32::MAX),
        CorpusLoadError::InvalidPotChance => exists|i: int|
            0 <= i < c.regions@.len() && (#[trigger] c.regions@[i]).pot_chance > CHANCE_SCALE,
        CorpusLoadError::DuplicateRegionName => exists|i: int, j: int|
            0 <= i < j < c.regions@.len() && c.regions@[i].name@ == c.regions@[j].name@,
    }
}

impl TextTable {
    /// The measurement table the text table was built against.
    pub open spec fn advances(self) -> Seq<(char, u32)> {
        self.font_sizer.advances@
    }

    /// Well-formedness: the deterministic weighted index spans exactly the
    /// regions, every region is well-formed, names are unique, every pot
    /// token is space-free, and lines have height.
    pub open spec fn wf(self) -> bool {
        &&& self.regions@.len() > 0
        &&& self.weighted_index.wf()
        &&& self.weighted_index.len() == self.regions@.len()
        &&& forall|i: int|
            0 <= i < self.regions@.len() ==> region_wf(
                #[trigger] self.regions@[i],
                self.advances(),
            )
        &&& forall|i: int, j: int|
            0 <= i < j < self.regions@.len() ==> self.regions@[i].name@ != self.regions@[j].name@
        &&& forall|p: int, k: int|
            0 <= p < self.split_pots@.len() && 0 <= k < self.split_pots@[p]@.len() ==> space_free(
                (#[trigger] self.split_pots@[p]@[k])@,
            )
        &&& self.font_sizer.line_height >= 1
    }

    /// Loads a corpus, measuring every catalog item against the given
    /// measurement collaborator, precomputing every region's narrowest item,
    /// and splitting every pot into its tokens.  Fails exactly when the
    /// corpus breaks a load-time invariant, and reports which kind of
    /// violation it found.
    #[verifier::loop_isolation(false)]
    pub fn from_corpus(corpus: Corpus, font_sizer: FontSizer) -> (r: Result<
        TextTable,
        CorpusLoadError,
    >)
        requires
            font_sizer.line_height >= 1,
        ensures
            (r is Ok) <==> corpus_loadable(corpus),
            r matches Ok(t) ==> table_from(t, corpus, font_sizer),
            r matches Err(e) ==> corpus_load_failure(corpus, e),
    {
        let n: usize = corpus.regions.len();
        let mut regions: Vec<Region> = Vec::new();
        let mut region_weights_v: Vec<u32> = Vec::new();
        let mut k: usize = 0;
        while k < n
            invariant
                k <= n,
                n == corpus.regions@.len(),
                regions@.len() == k,
                region_weights_v@.len() == k,
                forall|i: int|
                    0 <= i < k ==> region_weights_v@[i] == (#[trigger] corpus.regions@[i]).weight,
                forall|i: int|
                    0 <= i < k ==> region_from(
                        #[trigger] regions@[i],
                        corpus.regions@[i],
                        font_sizer.advances@,
                    ),
                forall|i: int|
                    0 <= i < k ==> region_wf(#[trigger] regions@[i], font_sizer.advances@),
                forall|i: int|
                    0 <= i < k ==> (#[trigger] corpus.regions@[i]).items@.len() > 0,
                forall|i: int|
                    0 <= i < k ==> 0 < sum_of(item_weights(#[trigger] corpus.regions@[i]))
                        <= u32::MAX,
                forall|i: int|
                    0 <= i < k ==> (#[trigger] corpus.regions@[i]).pot_chance <= CHANCE_SCALE,
                forall|i: int, j: int|
                    0 <= i < j < k ==> corpus.regions@[i].name@ != corpus.regions@[j].name@,
            decreases n - k,
        {
            let cr = &corpus.regions[k];
            let mut j: usize = 0;
            while j < k
                invariant
                    j <= k,
                    forall|i: int|
                        0 <= i < j ==> (#[trigger] corpus.regions@[i]).name@
                            != corpus.regions@[k as int].name@,
                decreases k - j,
            {
                if regions[j].name == cr.name {
                    proof {
                        assert(regions@[j as int].name@ == corpus.regions@[j as int].name@);
                    }
                    return Err(CorpusLoadError::DuplicateRegionName);
                }
                j += 1;
            }
            if cr.pot_chance > CHANCE_SCALE {
                return Err(CorpusLoadError::InvalidPotChance);
            }
            let m: usize = cr.items.len();
            if m == 0 {
                return Err(CorpusLoadError::EmptyRegion);
            }
            let ghost iw = item_weights(corpus.regions@[k as int]);
            let mut items: Vec<Item> = Vec::new();
            let mut weights: Vec<u32> = Vec::new();
            let mut wsum: u32 = 0;
            let mut q: usize = 0;
            proof {
                assert(weights@ =~= iw.take(0));
            }
            while q < m
                invariant
                    q <= m,
                    k < n,
                    n == corpus.regions@.len(),
                    m == corpus.regions@[k as int].items@.len(),
                    iw == item_weights(corpus.regions@[k as int]),
                    iw.len() == m,
                    items@.len() == q,
                    weights@ == iw.take(q as int),
                    wsum as int == sum_of(iw.take(q as int)),
                    forall|x: int|
                        0 <= x < q ==> (#[trigger] items@[x]).text@
                            == corpus.regions@[k as int].items@[x].text@,
                    forall|x: int|
                        0 <= x < q ==> (#[trigger] items@[x]).width as int == measured(
                            font_sizer.advances@,
                            items@[x].text@,
                        ),
                decreases m - q,
            {
                let ci = &cr.items[q];
                let text = ci.text.clone();
                let width: u64 = font_sizer.get_width(text.as_str());
                proof {
                    crate::lemma_sum_of_take_step(iw, q as int);
                    assert(iw[q as int] == ci.weight);
                }
                if ci.weight > u32::MAX - wsum {
                    proof {
                        crate::lemma_sum_of_take_le(iw, q as int + 1);
                    }
                    return Err(CorpusLoadError::InvalidItemWeights);
                }
                wsum = wsum + ci.weight;
                items.push(Item { text, width });
                weights.push(ci.weight);
                proof {
                    assert(weights@ =~= iw.take(q as int + 1));
                }
                q += 1;
            }
            proof {
                assert(iw.take(m as int) =~= iw);
            }
            if wsum == 0 {
                return Err(CorpusLoadError::InvalidItemWeights);
            }
            let weighted_index = match weighted_index_new(&weights) {
                Some(w) => w,
                None => unreached(),
            };
            let mut shortest = items[0].clone();
            let mut q2: usize = 1;
            while q2 < m
                invariant
                    1 <= q2 <= m,
                    m == items@.len(),
                    exists|x: int| 0 <= x < q2 && shortest == items@[x],
                    forall|x: int| 0 <= x < q2 ==> shortest.width <= (#[trigger] items@[x]).width,
                decreases m - q2,
            {
                if items[q2].width < shortest.width {
                    shortest = items[q2].clone();
                }
                q2 += 1;
            }
            let region = Region {
                name: cr.name.clone(),
                items,
                shortest_item: shortest,
                weighted_index,
                pot_chance: cr.pot_chance,
            };
            proof {
                assert(region.items@.len() > 0);
                assert(forall|i: int|
                    0 <= i < region.items@.len() ==> (#[trigger] region.items@[i]).width as int
                        == measured(font_sizer.advances@, region.items@[i].text@));
                assert(exists|i: int|
                    0 <= i < region.items@.len() && region.shortest_item == region.items@[i]);
                assert(forall|i: int|
                    0 <= i < region.items@.len() ==> region.shortest_item.width <= (
                    #[trigger] region.items@[i]).width);
                assert(weights_of(region.weighted_index).len() == region.items@.len());
                assert(region.pot_chance <= CHANCE_SCALE);
                assert(region_wf(region, font_sizer.advances@));
                assert(region_from(region, corpus.regions@[k as int], font_sizer.advances@));
            }
            regions.push(region);
            region_weights_v.push(cr.weight);
            k += 1;
        }
        let ghost rw = region_weights(corpus);
        proof {
            assert(region_weights_v@ =~= rw);
            crate::lemma_sum_of_nonneg(rw);
        }
        let weighted_index = match DeterministicWeightedIndex::new(region_weights_v) {
            Ok(d) => d,
            Err(_) => {
                return Err(CorpusLoadError::InvalidRegionWeights);
            },
        };
        let np: usize = corpus.pots.len();
        let mut split_pots: Vec<Vec<String>> = Vec::new();
        let mut p: usize = 0;
        while p < np
            invariant
                p <= np,
                np == corpus.pots@.len(),
                split_pots@.len() == p,
                forall|i: int|
                    0 <= i < p ==> (#[trigger] split_pots@[i]).deep_view() == spec_split(
                        corpus.pots@[i]@,
                    ),
            decreases np - p,
        {
            let toks = split_on_spaces(corpus.pots[p].as_str());
            split_pots.push(toks);
            p += 1;
        }
        let t = TextTable { regions, weighted_index, split_pots, font_sizer };
        proof {
            assert forall|pi: int, ki: int|
                0 <= pi < t.split_pots@.len() && 0 <= ki < t.split_pots@[pi]@.len() implies
                space_free((#[trigger] t.split_pots@[pi]@[ki])@) by {
                lemma_split_space_free(corpus.pots@[pi]@);
                assert(t.split_pots@[pi].deep_view()[ki] == t.split_pots@[pi]@[ki]@);
                assert(t.split_pots@[pi].deep_view() == spec_split(corpus.pots@[pi]@));
            }
            assert(t.wf());
            assert(corpus_loadable(corpus));
        }
        Ok(t)
    }

    /// Catalog selection: a weighted-random item of the region, or the
    /// region's shortest item when the drawn one exceeds the width budget.
    fn get_ground(&self, region: &Region, max_width: u64, source: &mut RandomSource) -> (it: Item)
        requires
            region_wf(*region, self.advances()),
        ensures
            ground_outcome(*region, max_width as int, it),
    {
        let i: usize = weighted_index_sample(&region.weighted_index, source);
        let chosen = &region.items[i];
        if chosen.width <= max_width {
            let it = chosen.clone();
            proof {
                assert(0 <= i < region.items@.len()
                    && weights_of(region.weighted_index)[i as int] > 0
                    && it == region.items@[i as int]);
            }
            it
        } else {
            let it = region.shortest_item.clone();
            proof {
                assert(0 <= i < region.items@.len()
                    && weights_of(region.weighted_index)[i as int] > 0
                    && region.items@[i as int].width > max_width);
            }
            it
        }
    }

    /// Pot extraction: draw a pot, draw a slice length between `MIN_WORDS`
    /// and `DEFAULT_MAX_WORDS` (never more tokens than the pot has), and try
    /// random slices of shrinking length until one fits the budget.  Yields
    /// nothing when there are no pots, when the drawn pot has fewer than
    /// `MIN_WORDS` tokens (short pots are guarded here rather than rejected
    /// at load time), or when no slice down to `MIN_WORDS` fits; when pots
    /// exist and no draw can fail (every pot is long enough and every
    /// admissible slice fits), extraction is owed to succeed.
    fn get_sherd(&self, max_width: u64, source: &mut RandomSource) -> (r: Option<Item>)
        requires
            self.wf(),
        ensures
            r matches Some(it) ==> pot_outcome(*self, max_width as int, it),
            self.split_pots@.len() == 0 ==> r is None,
            self.split_pots@.len() > 0 && all_pots_long_enough(*self) && all_pot_slices_fit(
                *self,
                max_width as int,
            ) ==> r is Some,
    {
        if self.split_pots.len() == 0 {
            return None;
        }
        let p: usize = source.gen_below(self.split_pots.len());
        let pot = &self.split_pots[p];
        let pot_len: usize = pot.len();
        if pot_len < MIN_WORDS as usize {
            return None;
        }
        let max_count: usize = if DEFAULT_MAX_WORDS as usize <= pot_len {
            DEFAULT_MAX_WORDS as usize
        } else {
            pot_len
        };
        let drawn: usize = source.gen_below(max_count - MIN_WORDS as usize + 1);
        let mut count: usize = MIN_WORDS as usize + drawn;
        loop
            invariant
                MIN_WORDS as usize <= count <= max_count,
                max_count <= pot_len,
                max_count <= DEFAULT_MAX_WORDS,
                p < self.split_pots@.len(),
                pot == self.split_pots@[p as int],
                pot_len == pot@.len(),
                self.wf(),
            decreases count,
        {
            let start: usize = source.gen_below(pot_len - count + 1);
            let text = join_slice(pot, start, start + count);
            let squashed = concat_slice(pot, start, start + count);
            let width: u64 = self.font_sizer.get_width(squashed.as_str());
            proof {
                assert(pot_slice(*self, p as int, start as int, count as int)
                    =~= pot.deep_view().subrange(start as int, start as int + count as int));
                assert(width as int == measured(
                    self.advances(),
                    spec_concat(pot_slice(*self, p as int, start as int, count as int)),
                ));
            }
            if width <= max_width {
                let it = Item { text, width };
                proof {
                    let tokens = pot_slice(*self, p as int, start as int, count as int);
                    assert(tokens =~= pot.deep_view().subrange(
                        start as int,
                        start as int + count as int,
                    ));
                    assert forall|k: int| 0 <= k < tokens.len() implies space_free(
                        #[trigger] tokens[k],
                    ) by {
                        assert(tokens[k] == pot@[start as int + k]@);
                        assert(space_free(self.split_pots@[p as int]@[start as int + k]@));
                    }
                    assert(it.text@ == spec_join(tokens));
                    lemma_squash_join(tokens);
                    assert(squash(it.text@) == spec_concat(tokens));
                    assert(it.width as int == measured(self.advances(), squash(it.text@)));
                    assert(pot_outcome(*self, max_width as int, it));
                }
                return Some(it);
            }
            if count == MIN_WORDS as usize {
                return None;
            }
            count = count - 1;
        }
    }

    /// The shared item production for a resolved region: with the region's
    /// pot chance attempt pot extraction, and otherwise (or as fallback when
    /// no pot phrase fits) draw from the catalog.
    pub fn get_item(&self, region: &Region, max_width: u64, source: &mut RandomSource) -> (it:
        Item)
        requires
            self.wf(),
            region_wf(*region, self.advances()),
        ensures
            item_outcome(*self, *region, max_width as int, it),
            region.pot_chance == 0 ==> ground_outcome(*region, max_width as int, it),
    {
        let draw: usize = source.gen_below(CHANCE_SCALE as usize);
        if (draw as u32) < region.pot_chance {
            match self.get_sherd(max_width, source) {
                Some(it) => {
                    return it;
                },
                None => {},
            }
        }
        self.get_ground(region, max_width, source)
    }

    /// The region a selector value resolves to, through the deterministic
    /// weighted index over the region weights.
    pub fn get_region_by_value(&self, region_value: u32) -> (r: &Region)
        requires
            self.wf(),
            region_value <= SELECTOR_SCALE,
        ensures
            *r == self.regions@[self.weighted_index.spec_sample(region_value as int)],
            region_wf(*r, self.advances()),
    {
        match self.weighted_index.sample(region_value) {
            Ok(i) => &self.regions[i],
            Err(_) => unreached(),
        }
    }

    /// An item for the region the selector value resolves to, under the
    /// width budget.
    pub fn get_item_by_value(&self, region_value: u32, max_width: u64, source: &mut RandomSource)
        -> (it: Item)
        requires
            self.wf(),
            region_value <= SELECTOR_SCALE,
        ensures
            item_outcome(
                *self,
                self.regions@[self.weighted_index.spec_sample(region_value as int)],
                max_width as int,
                it,
            ),
            self.regions@[self.weighted_index.spec_sample(region_value as int)].pot_chance == 0
                ==> ground_outcome(
                self.regions@[self.weighted_index.spec_sample(region_value as int)],
                max_width as int,
                it,
            ),
    {
        let region = self.get_region_by_value(region_value);
        self.get_item(region, max_width, source)
    }

    /// An item from the region of the given name, under the width budget, or
    /// nothing exactly when no region bears the name.
    pub fn get_item_by_name(&self, region_name: &str, max_width: u64, source: &mut RandomSource)
        -> (r: Option<Item>)
        requires
            self.wf(),
        ensures
            (r is Some) <==> exists|i: int|
                0 <= i < self.regions@.len() && (#[trigger] self.regions@[i]).name@
                    == region_name@,
            r matches Some(it) ==> exists|i: int|
                {
                    &&& 0 <= i < self.regions@.len()
                    &&& (#[trigger] self.regions@[i]).name@ == region_name@
                    &&& item_outcome(*self, self.regions@[i], max_width as int, it)
                    &&& self.regions@[i].pot_chance == 0 ==> ground_outcome(
                        self.regions@[i],
                        max_width as int,
                        it,
                    )
                },
    {
        let needle: String = region_name.to_owned();
        let n: usize = self.regions.len();
        let mut k: usize = 0;
        while k < n
            invariant
                k <= n,
                n == self.regions@.len(),
                self.wf(),
                needle@ == region_name@,
                forall|i: int| 0 <= i < k ==> (#[trigger] self.regions@[i]).name@ != region_name@,
            decreases n - k,
        {
            if self.regions[k].name == needle {
                let region = &self.regions[k];
                let it = self.get_item(region, max_width, source);
                return Some(it);
            }
            k += 1;
        }
        None
    }
}

/// A successful pot extraction always yields between `MIN_WORDS` and
/// `DEFAULT_MAX_WORDS` tokens: splitting its phrase back on spaces recovers
/// exactly the extracted slice.
pub proof fn lemma_pot_word_count(t: TextTable, max_width: int, it: Item)
    requires
        t.wf(),
        pot_outcome(t, max_width, it),
    ensures
        MIN_WORDS <= spec_split(it.text@).len() <= DEFAULT_MAX_WORDS,
{
    let (p, start, count) = choose|p: int, start: int, count: int|
        {
            &&& 0 <= p < t.split_pots@.len()
            &&& MIN_WORDS <= count <= DEFAULT_MAX_WORDS
            &&& 0 <= start
            &&& start + count <= t.split_pots@[p]@.len()
            &&& it.text@ == spec_join(#[trigger] pot_slice(t, p, start, count))
            &&& it.width as int == measured(t.advances(), squash(it.text@))
            &&& it.width <= max_width
        };
    let tokens = pot_slice(t, p, start, count);
    assert(tokens.len() == count);
    assert forall|k: int| 0 <= k < tokens.len() implies space_free(#[trigger] tokens[k]) by {
        assert(tokens[k] == t.split_pots@[p]@[start + k]@);
        assert(space_free(t.split_pots@[p]@[start + k]@));
    }
    lemma_split_join(tokens);
}

} // verus!
