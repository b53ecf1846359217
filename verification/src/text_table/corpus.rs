//! The corpus schema: what a text table is loaded from.

use vstd::prelude::*;

verus! {

/// A corpus: weighted region definitions plus a pool of free-text pots.
/// A pot is a long source string whose words are separated by single
/// spaces; its tokens are sliced at random to synthesize short phrases.
pub struct Corpus {
    pub regions: Vec<Region>,
    pub pots: Vec<String>,
}

/// One region definition: a named, weighted category of content.
/// `pot_chance` is a fixed-point fraction of one in `[0, CHANCE_SCALE]`: the
/// probability of drawing a generated phrase from a pot instead of the fixed
/// catalog.
pub struct Region {
    pub name: String,
    pub weight: u32,
    pub items: Vec<Item>,
    pub pot_chance: u32,
}

/// One catalog entry of a region: a fixed text with its selection weight.
pub struct Item {
    pub text: String,
    pub weight: u32,
}

} // verus!
