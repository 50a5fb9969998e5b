use calamine::Data;
use calamine::Range;

use to_hood_profile_serializer::ConvertError;
use to_hood_profile_serializer::VerboseEntry;
use to_hood_profile_serializer::create_compact_collection;
use to_hood_profile_serializer::insert_tree;
use to_hood_profile_serializer::parse_spreadsheet;
use to_hood_profile_serializer::rows::classify_name;

fn sheet(cells: Vec<Vec<Data>>) -> Range<Data> {
    let rows = cells.len() as u32;
    let cols = cells.iter().map(|r| r.len()).max().unwrap() as u32;
    let mut range: Range<Data> = Range::new((0, 0), (rows - 1, cols - 1));
    for (i, row) in cells.into_iter().enumerate() {
        for (j, cell) in row.into_iter().enumerate() {
            range.set_value((i as u32, j as u32), cell);
        }
    }
    range
}

fn s(text: &str) -> Data {
    Data::String(text.to_string())
}

fn n(value: i64) -> Data {
    Data::Int(value)
}

#[test]
fn classify_trims_two_spaces_per_level() {
    assert_eq!(classify_name("Population"), ("Population".to_string(), 0));
    assert_eq!(classify_name("  Pop under 12"), ("Pop under 12".to_string(), 1));
    assert_eq!(classify_name("    deep"), ("deep".to_string(), 2));
    // an odd leftover space is truncated away by the integer division
    assert_eq!(classify_name("   odd"), ("odd".to_string(), 1));
    assert_eq!(classify_name(""), ("".to_string(), 0));
}

#[test]
fn classify_trims_all_whitespace_and_counts_bytes() {
    // every leading whitespace character is removed from the name, exactly
    // as str::trim_start removes it
    assert_eq!(classify_name("\tA").0, "A");
    assert_eq!("\tA".trim_start(), "A");
    // the depth comes from the byte width of what was trimmed: a tab is one
    // byte and truncates to depth zero, a no-break space is two bytes
    assert_eq!(classify_name("\tA"), ("A".to_string(), 0));
    assert_eq!(classify_name("\u{a0}B"), ("B".to_string(), 1));
    assert_eq!(classify_name(" \tC"), ("C".to_string(), 1));
    // byte accounting matches the original formula on each of these
    for raw in ["\tA", "\u{a0}B", " \tC", "\u{2003}wide", "\r\nD"] {
        let (trimmed, indent) = classify_name(raw);
        assert_eq!(trimmed, raw.trim_start());
        assert_eq!(indent, (raw.len() - raw.trim_start().len()) / 2);
    }
}

#[test]
fn tab_led_rows_trim_into_the_tree() {
    let range = sheet(vec![
        vec![s(""), s("A")],
        vec![s("top"), n(1)],
        // a tab and a no-break space make three bytes: depth one
        vec![s("\t\u{a0}child"), n(2)],
    ]);
    let forest = parse_spreadsheet(&range).unwrap();
    assert_eq!(forest.len(), 1);
    assert_eq!(forest[0].nested.len(), 1);
    assert_eq!(forest[0].nested[0].name, "child");
}

#[test]
fn scenario_population_rows() {
    let range = sheet(vec![
        vec![s(""), s("North York"), s("Scarborough")],
        vec![s("Population"), n(300000), n(370000)],
        vec![s("  Pop under 12"), n(120000), n(140000)],
    ]);
    let forest = parse_spreadsheet(&range).unwrap();
    assert_eq!(forest.len(), 1);
    let top = &forest[0];
    assert_eq!(top.name, "Population");
    assert_eq!(
        top.data.entries,
        vec![("North York".to_string(), 300000), ("Scarborough".to_string(), 370000)]
    );
    assert_eq!(top.nested.len(), 1);
    let child = &top.nested[0];
    assert_eq!(child.name, "Pop under 12");
    assert_eq!(
        child.data.entries,
        vec![("North York".to_string(), 120000), ("Scarborough".to_string(), 140000)]
    );
    assert_eq!(child.nested.len(), 0);

    let compact = create_compact_collection(forest);
    assert_eq!(compact.entries.len(), 1);
    let (top_name, top_entry) = &compact.entries[0];
    assert_eq!(top_name, "Population");
    assert_eq!(
        top_entry.data.entries,
        vec![("North York".to_string(), 300000), ("Scarborough".to_string(), 370000)]
    );
    assert_eq!(top_entry.nested.entries.len(), 1);
    let (child_name, child_entry) = &top_entry.nested.entries[0];
    assert_eq!(child_name, "Pop under 12");
    assert_eq!(
        child_entry.data.entries,
        vec![("North York".to_string(), 120000), ("Scarborough".to_string(), 140000)]
    );
    assert_eq!(child_entry.nested.entries.len(), 0);
}

#[test]
fn indent_zero_always_starts_new_top_level() {
    let range = sheet(vec![
        vec![s(""), s("A")],
        vec![s("one"), n(1)],
        vec![s("  two"), n(2)],
        vec![s("    three"), n(3)],
        vec![s("four"), n(4)],
    ]);
    let forest = parse_spreadsheet(&range).unwrap();
    assert_eq!(forest.len(), 2);
    assert_eq!(forest[0].name, "one");
    assert_eq!(forest[1].name, "four");
    assert_eq!(forest[1].nested.len(), 0);
}

#[test]
fn depth_skip_of_one_is_tolerated() {
    let range = sheet(vec![
        vec![s(""), s("A")],
        vec![s("A"), n(1)],
        vec![s("    B"), n(2)],
    ]);
    let forest = parse_spreadsheet(&range).unwrap();
    assert_eq!(forest.len(), 1);
    assert_eq!(forest[0].name, "A");
    assert_eq!(forest[0].nested.len(), 1);
    assert_eq!(forest[0].nested[0].name, "B");
}

#[test]
fn depth_skip_of_two_is_invalid() {
    let range = sheet(vec![
        vec![s(""), s("A")],
        vec![s("A"), n(1)],
        vec![s("      B"), n(2)],
    ]);
    assert_eq!(parse_spreadsheet(&range).unwrap_err(), ConvertError::InvalidDepth);
}

#[test]
fn indented_first_row_is_invalid() {
    let range = sheet(vec![vec![s(""), s("A")], vec![s("  early"), n(1)]]);
    assert_eq!(parse_spreadsheet(&range).unwrap_err(), ConvertError::InvalidDepth);
}

#[test]
fn unreadable_name_cell_is_malformed() {
    let range = sheet(vec![vec![s(""), s("A")], vec![Data::Empty, n(1)]]);
    assert_eq!(parse_spreadsheet(&range).unwrap_err(), ConvertError::MalformedRow);
}

#[test]
fn value_without_label_is_malformed() {
    // the header holds no string cell for the second data column
    let range = sheet(vec![vec![s(""), s("A")], vec![s("row"), n(1), n(2)]]);
    assert_eq!(parse_spreadsheet(&range).unwrap_err(), ConvertError::MalformedRow);
}

#[test]
fn empty_sheet_is_rejected() {
    let range: Range<Data> = Range::new((0, 0), (0, 0));
    // a 1x1 range of empty cells still has a (blank) header row
    assert!(parse_spreadsheet(&range).is_ok());
    let empty: Range<Data> = Range::empty();
    assert_eq!(parse_spreadsheet(&empty).unwrap_err(), ConvertError::EmptyTable);
}

#[test]
fn non_string_header_cells_are_skipped() {
    let range = sheet(vec![
        vec![s(""), n(7), s("A")],
        // the integer header cell contributes no label, so the labels shift:
        // column one is named by the only string label
        vec![s("row"), n(5)],
    ]);
    let forest = parse_spreadsheet(&range).unwrap();
    assert_eq!(forest[0].data.entries, vec![("A".to_string(), 5)]);
}

#[test]
fn non_integer_cells_are_skipped() {
    let range = sheet(vec![
        vec![s(""), s("A"), s("B")],
        vec![s("row"), Data::Empty, n(9)],
    ]);
    let forest = parse_spreadsheet(&range).unwrap();
    assert_eq!(forest[0].data.entries, vec![("B".to_string(), 9)]);
}

#[test]
fn duplicate_siblings_collapse_in_compact() {
    let range = sheet(vec![
        vec![s(""), s("A")],
        vec![s("parent"), n(0)],
        vec![s("  X"), n(1)],
        vec![s("  X"), n(2)],
    ]);
    let forest = parse_spreadsheet(&range).unwrap();
    // verbose keeps both same-named siblings in order
    assert_eq!(forest[0].nested.len(), 2);
    assert_eq!(forest[0].nested[0].name, "X");
    assert_eq!(forest[0].nested[1].name, "X");
    assert_eq!(forest[0].nested[0].data.entries, vec![("A".to_string(), 1)]);
    assert_eq!(forest[0].nested[1].data.entries, vec![("A".to_string(), 2)]);
    // compact collapses them to one key; the later sibling wins
    let compact = create_compact_collection(forest);
    let (_, parent) = &compact.entries[0];
    assert_eq!(parent.nested.entries.len(), 1);
    assert_eq!(parent.nested.entries[0].0, "X");
    assert_eq!(parent.nested.entries[0].1.data.entries, vec![("A".to_string(), 2)]);
}

#[test]
fn duplicate_labels_overwrite_in_place() {
    let range = sheet(vec![
        vec![s(""), s("A"), s("A")],
        vec![s("row"), n(1), n(2)],
    ]);
    let forest = parse_spreadsheet(&range).unwrap();
    assert_eq!(forest[0].data.entries, vec![("A".to_string(), 2)]);
}

#[test]
fn insert_tree_descends_rightmost_branch() {
    let mut root = VerboseEntry::new("root");
    insert_tree(&mut root, VerboseEntry::new("a"), 1);
    insert_tree(&mut root, VerboseEntry::new("b"), 1);
    insert_tree(&mut root, VerboseEntry::new("b1"), 2);
    assert_eq!(root.nested.len(), 2);
    assert_eq!(root.nested[0].name, "a");
    assert_eq!(root.nested[0].nested.len(), 0);
    assert_eq!(root.nested[1].name, "b");
    assert_eq!(root.nested[1].nested.len(), 1);
    assert_eq!(root.nested[1].nested[0].name, "b1");
}

#[test]
fn new_entry_is_bare() {
    let e = VerboseEntry::new("  padded  ");
    assert_eq!(e.name, "  padded  ");
    assert_eq!(e.data.entries.len(), 0);
    assert_eq!(e.nested.len(), 0);
    assert_eq!(e.get_name(), "  padded  ");
}

fn count_verbose(forest: &[VerboseEntry]) -> usize {
    forest.iter().map(|e| 1 + count_verbose(&e.nested)).sum()
}

fn count_compact(c: &to_hood_profile_serializer::CompactCollection) -> usize {
    c.entries.iter().map(|(_, e)| 1 + count_compact(&e.nested)).sum()
}

#[test]
fn compact_preserves_node_count_for_unique_names() {
    let range = sheet(vec![
        vec![s(""), s("A")],
        vec![s("one"), n(1)],
        vec![s("  two"), n(2)],
        vec![s("    three"), n(3)],
        vec![s("  four"), n(4)],
        vec![s("five"), n(5)],
    ]);
    let forest = parse_spreadsheet(&range).unwrap();
    let verbose_count = count_verbose(&forest);
    assert_eq!(verbose_count, 5);
    let compact = create_compact_collection(forest);
    assert_eq!(count_compact(&compact), verbose_count);
}
