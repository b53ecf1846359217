use shore::CHANCE_SCALE;
use shore::font::FontSizer;
use shore::random::RandomSource;
use shore::text_table::CorpusLoadError;
use shore::text_table::TextTable;
use shore::text_table::corpus::Corpus;
use shore::text_table::corpus::Item as CorpusItem;
use shore::text_table::corpus::Region as CorpusRegion;

fn letter_sizer() -> FontSizer {
    // Every lowercase letter advances 10 units; spaces are unknown on
    // purpose, so squashed widths equal the letter count times ten.
    let mut advances: Vec<(char, u32)> = Vec::new();
    for c in 'a'..='z' {
        advances.push((c, 10));
    }
    FontSizer::new(advances, 10)
}

fn region(name: &str, weight: u32, pot_chance: u32, items: &[(&str, u32)]) -> CorpusRegion {
    let mut out: Vec<CorpusItem> = Vec::new();
    for (text, w) in items {
        out.push(CorpusItem { text: (*text).to_string(), weight: *w });
    }
    CorpusRegion { name: name.to_string(), weight, items: out, pot_chance }
}

fn corpus(regions: Vec<CorpusRegion>, pots: &[&str]) -> Corpus {
    let mut pot_strings: Vec<String> = Vec::new();
    for p in pots {
        pot_strings.push((*p).to_string());
    }
    Corpus { regions, pots: pot_strings }
}

fn word_count(text: &str) -> usize {
    let mut count: usize = 1;
    for c in text.chars() {
        if c == ' ' {
            count += 1;
        }
    }
    count
}

#[test]
fn load_rejects_region_without_items() {
    let c = corpus(vec![region("empty", 1, 0, &[])], &[]);
    let r = TextTable::from_corpus(c, letter_sizer());
    assert!(matches!(r, Err(CorpusLoadError::EmptyRegion)));
}

#[test]
fn load_rejects_zero_item_weights() {
    let c = corpus(vec![region("main", 1, 0, &[("hello", 0), ("world", 0)])], &[]);
    let r = TextTable::from_corpus(c, letter_sizer());
    assert!(matches!(r, Err(CorpusLoadError::InvalidItemWeights)));
}

#[test]
fn load_rejects_zero_region_weights() {
    let c = corpus(vec![region("main", 0, 0, &[("hello", 1)])], &[]);
    let r = TextTable::from_corpus(c, letter_sizer());
    assert!(matches!(r, Err(CorpusLoadError::InvalidRegionWeights)));
}

#[test]
fn load_rejects_no_regions() {
    let c = corpus(vec![], &[]);
    let r = TextTable::from_corpus(c, letter_sizer());
    assert!(matches!(r, Err(CorpusLoadError::InvalidRegionWeights)));
}

#[test]
fn load_rejects_pot_chance_beyond_one() {
    let c = corpus(vec![region("main", 1, CHANCE_SCALE + 1, &[("hello", 1)])], &[]);
    let r = TextTable::from_corpus(c, letter_sizer());
    assert!(matches!(r, Err(CorpusLoadError::InvalidPotChance)));
}

#[test]
fn load_rejects_duplicate_region_names() {
    let c = corpus(
        vec![region("twin", 1, 0, &[("hello", 1)]), region("twin", 2, 0, &[("world", 1)])],
        &[],
    );
    let r = TextTable::from_corpus(c, letter_sizer());
    assert!(matches!(r, Err(CorpusLoadError::DuplicateRegionName)));
}

#[test]
fn lookup_by_name_finds_and_misses() {
    let c = corpus(
        vec![region("left", 1, 0, &[("aa", 1)]), region("right", 1, 0, &[("bbb", 1)])],
        &[],
    );
    let table = TextTable::from_corpus(c, letter_sizer()).unwrap();
    let mut rng = RandomSource::new();
    let it = table.get_item_by_name("right", 1000, &mut rng).unwrap();
    assert_eq!(it.text, "bbb");
    assert_eq!(it.width, 30);
    assert!(table.get_item_by_name("middle", 1000, &mut rng).is_none());
}

#[test]
fn zero_pot_chance_always_draws_the_catalog() {
    let c = corpus(vec![region("main", 1, 0, &[("hello", 1)])], &["a b c d e f"]);
    let table = TextTable::from_corpus(c, letter_sizer()).unwrap();
    let mut rng = RandomSource::new();
    for _ in 0..50 {
        let it = table.get_item_by_name("main", 1000, &mut rng).unwrap();
        assert_eq!(it.text, "hello");
        assert_eq!(it.width, 50);
    }
}

#[test]
fn zero_weight_items_are_never_drawn() {
    let c = corpus(vec![region("main", 1, 0, &[("aaaa", 0), ("bb", 7)])], &[]);
    let table = TextTable::from_corpus(c, letter_sizer()).unwrap();
    let mut rng = RandomSource::new();
    for _ in 0..50 {
        let it = table.get_item_by_name("main", 1000, &mut rng).unwrap();
        assert_eq!(it.text, "bb");
    }
}

#[test]
fn too_wide_draws_fall_back_to_the_shortest_item() {
    // Budget 45 fits neither drawn item "loooooong" (90) nor forces an
    // error: the region's narrowest item comes back instead.
    let c = corpus(vec![region("main", 1, 0, &[("loooooong", 1), ("tiny", 0)])], &[]);
    let table = TextTable::from_corpus(c, letter_sizer()).unwrap();
    let mut rng = RandomSource::new();
    for _ in 0..50 {
        let it = table.get_item_by_name("main", 45, &mut rng).unwrap();
        assert_eq!(it.text, "tiny");
        assert_eq!(it.width, 40);
    }
}

#[test]
fn full_pot_chance_extracts_two_to_four_words() {
    let c = corpus(
        vec![region("main", 1, CHANCE_SCALE, &[("x", 1)])],
        &["one two three four five six seven"],
    );
    let table = TextTable::from_corpus(c, letter_sizer()).unwrap();
    let mut rng = RandomSource::new();
    for _ in 0..100 {
        let it = table.get_item_by_name("main", 100_000, &mut rng).unwrap();
        let words = word_count(&it.text);
        assert!(words >= 2 && words <= 4, "got {} words in {:?}", words, it.text);
    }
}

#[test]
fn pot_width_is_measured_without_spaces() {
    // Pot of two-letter tokens: any extraction of n tokens measures 20 * n,
    // spaces contributing nothing.
    let c = corpus(vec![region("main", 1, CHANCE_SCALE, &[("x", 1)])], &["ab cd ef gh ij"]);
    let table = TextTable::from_corpus(c, letter_sizer()).unwrap();
    let mut rng = RandomSource::new();
    for _ in 0..100 {
        let it = table.get_item_by_name("main", 100_000, &mut rng).unwrap();
        let words = word_count(&it.text) as u64;
        assert_eq!(it.width, 20 * words);
    }
}

#[test]
fn short_pots_fall_back_to_the_catalog() {
    let c = corpus(vec![region("main", 1, CHANCE_SCALE, &[("hello", 1)])], &["alone"]);
    let table = TextTable::from_corpus(c, letter_sizer()).unwrap();
    let mut rng = RandomSource::new();
    for _ in 0..20 {
        let it = table.get_item_by_name("main", 1000, &mut rng).unwrap();
        assert_eq!(it.text, "hello");
    }
}

#[test]
fn missing_pots_fall_back_to_the_catalog() {
    let c = corpus(vec![region("main", 1, CHANCE_SCALE, &[("hello", 1)])], &[]);
    let table = TextTable::from_corpus(c, letter_sizer()).unwrap();
    let mut rng = RandomSource::new();
    for _ in 0..20 {
        let it = table.get_item_by_name("main", 1000, &mut rng).unwrap();
        assert_eq!(it.text, "hello");
    }
}

#[test]
fn too_wide_pots_fall_back_to_the_catalog() {
    // Every two-token slice of the pot measures at least 120, far over the
    // budget of 25, so extraction always gives way to the catalog.
    let c = corpus(
        vec![region("main", 1, CHANCE_SCALE, &[("ab", 1)])],
        &["aaaaaa bbbbbb cccccc dddddd"],
    );
    let table = TextTable::from_corpus(c, letter_sizer()).unwrap();
    let mut rng = RandomSource::new();
    for _ in 0..50 {
        let it = table.get_item_by_name("main", 25, &mut rng).unwrap();
        assert_eq!(it.text, "ab");
    }
}

#[test]
fn selector_value_resolves_regions_deterministically() {
    let c = corpus(
        vec![
            region("first", 1, 0, &[("a", 1)]),
            region("second", 1, 0, &[("bb", 1)]),
            region("third", 2, 0, &[("ccc", 1)]),
        ],
        &[],
    );
    let table = TextTable::from_corpus(c, letter_sizer()).unwrap();
    assert_eq!(table.get_region_by_value(0).name, "first");
    assert_eq!(table.get_region_by_value(260_000).name, "second");
    assert_eq!(table.get_region_by_value(750_000).name, "third");
    let mut rng = RandomSource::new();
    let it = table.get_item_by_value(750_000, 1000, &mut rng);
    assert_eq!(it.text, "ccc");
}
