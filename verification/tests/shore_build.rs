use shore::font::FontSizer;
use shore::random::RandomSource;
use shore::shore::ShoreBuilder;
use shore::text_table::TextTable;
use shore::text_table::corpus::Corpus;
use shore::text_table::corpus::Item as CorpusItem;
use shore::text_table::corpus::Region as CorpusRegion;

fn hello_table() -> TextTable {
    // "hello" measures 50; one region, weight 1, no pot chance.
    let advances: Vec<(char, u32)> =
        vec![('h', 10), ('e', 10), ('l', 10), ('o', 10)];
    let sizer = FontSizer::new(advances, 10);
    let c = Corpus {
        regions: vec![CorpusRegion {
            name: "main".to_string(),
            weight: 1,
            items: vec![CorpusItem { text: "hello".to_string(), weight: 1 }],
            pot_chance: 0,
        }],
        pots: vec![],
    };
    TextTable::from_corpus(c, sizer).unwrap()
}

/// Drives a builder to completion, feeding the same selector value for
/// every probed coordinate.
fn drive(builder: &mut ShoreBuilder, table: &TextTable, selector: u32) {
    let mut rng = RandomSource::new();
    while let Some(_probe) = builder.next_probe() {
        builder.feed_selector(table, selector, &mut rng);
    }
}

#[test]
fn single_line_packs_two_items_greedily() {
    // Canvas 120 x 10 with line height 10: one line, and "hello" (50) fits
    // at offsets 0 and 50 but a third would reach 150 > 120.
    let table = hello_table();
    let mut builder = ShoreBuilder::new(120, 10, &table, false);
    drive(&mut builder, &table, 0);
    let shore = builder.into_shore();
    assert_eq!(shore.contents.len(), 2);
    assert_eq!(shore.contents[0].text, "hello");
    assert_eq!(shore.contents[0].line, 0);
    assert_eq!(shore.contents[0].offset, 0);
    assert_eq!(shore.contents[1].text, "hello");
    assert_eq!(shore.contents[1].line, 0);
    assert_eq!(shore.contents[1].offset, 50);
}

#[test]
fn exact_fit_fills_the_line() {
    // Canvas 100 x 10: two "hello" placements end exactly at the canvas
    // edge, and the line closes only on the third.
    let table = hello_table();
    let mut builder = ShoreBuilder::new(100, 10, &table, false);
    drive(&mut builder, &table, 0);
    let shore = builder.into_shore();
    let offsets: Vec<u64> = shore.contents.iter().map(|it| it.offset).collect();
    assert_eq!(offsets, vec![0, 50]);
}

#[test]
fn lines_count_is_height_over_line_height() {
    let table = hello_table();
    let mut builder = ShoreBuilder::new(120, 25, &table, false);
    drive(&mut builder, &table, 0);
    let shore = builder.into_shore();
    // floor(25 / 10) = 2 lines, two placements each.
    assert_eq!(shore.contents.len(), 4);
    let lines: Vec<u32> = shore.contents.iter().map(|it| it.line).collect();
    assert_eq!(lines, vec![0, 0, 1, 1]);
    let offsets: Vec<u64> = shore.contents.iter().map(|it| it.offset).collect();
    assert_eq!(offsets, vec![0, 50, 0, 50]);
}

#[test]
fn every_line_starts_at_the_left_edge() {
    let table = hello_table();
    let mut builder = ShoreBuilder::new(173, 47, &table, false);
    drive(&mut builder, &table, 0);
    let shore = builder.into_shore();
    assert!(shore.contents.len() > 0);
    let mut previous_line: Option<u32> = None;
    for it in shore.contents.iter() {
        if previous_line != Some(it.line) {
            assert_eq!(it.offset, 0);
        }
        previous_line = Some(it.line);
    }
}

#[test]
fn canvas_shorter_than_a_line_places_nothing() {
    let table = hello_table();
    let mut builder = ShoreBuilder::new(120, 9, &table, false);
    drive(&mut builder, &table, 0);
    let shore = builder.into_shore();
    assert_eq!(shore.contents.len(), 0);
}

#[test]
fn debug_contents_align_with_contents() {
    let table = hello_table();
    let mut builder = ShoreBuilder::new(200, 30, &table, true);
    drive(&mut builder, &table, 0);
    let shore = builder.into_debug_shore();
    assert_eq!(shore.debug_contents.len(), shore.contents.len());
    assert!(shore.contents.len() > 0);
    for (record, placed) in shore.debug_contents.iter().zip(shore.contents.iter()) {
        assert_eq!(record.line, placed.line);
        assert_eq!(record.offset, placed.offset);
        assert_eq!(record.text, "main");
    }
}

#[test]
fn placement_identifiers_are_unique() {
    let table = hello_table();
    let mut builder = ShoreBuilder::new(200, 20, &table, false);
    drive(&mut builder, &table, 0);
    let shore = builder.into_shore();
    assert!(shore.contents.len() >= 4);
    let mut ids: Vec<u128> = shore.contents.iter().map(|it| it.id).collect();
    ids.sort();
    ids.dedup();
    assert_eq!(ids.len(), shore.contents.len());
}

#[test]
fn coverage_holds_on_a_generated_shore() {
    let table = hello_table();
    let width: u64 = 173;
    let height: u64 = 47;
    let mut builder = ShoreBuilder::new(width, height, &table, false);
    drive(&mut builder, &table, 0);
    let shore = builder.into_shore();
    let line_count = height / 10;
    let mut last: Option<(u32, u64)> = None;
    for it in shore.contents.iter() {
        assert!((it.line as u64) < line_count);
        assert!(it.offset + 50 <= width);
        if let Some((line, offset)) = last {
            assert!(line <= it.line);
            if line == it.line {
                assert_eq!(it.offset, offset + 50);
            }
        }
        last = Some((it.line, it.offset));
    }
}
