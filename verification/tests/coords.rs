use package_check::error::MapError;
use package_check::ident::{FileIdentifier, VirtualPath};
use package_check::store::FileStore;
use package_check::today::{civil_of, Date};
use package_check::world::SystemWorld;

fn segs(parts: &[&str]) -> Vec<String> {
    parts.iter().map(|s| s.to_string()).collect()
}

fn local(parts: &[&str]) -> FileIdentifier {
    FileIdentifier::new(None, VirtualPath::new(segs(parts)))
}

fn world_with(content: &[u8]) -> (SystemWorld, FileStore, FileIdentifier) {
    let mut w = SystemWorld::new(segs(&["pkg", "main.typ"]), segs(&["pkg"])).unwrap();
    let mut store = FileStore::new();
    store.insert(segs(&["pkg", "a.typ"]), content.to_vec());
    let id = local(&["a.typ"]);
    let _ = w.source(&mut store, &id);
    (w, store, id)
}

#[test]
fn lines_and_columns_are_zero_indexed_byte_based() {
    // Offsets:       0123 4567
    let (mut w, mut s, id) = world_with(b"abc\ndef\n");
    assert_eq!(w.line_index(&mut s, &id, 0), Ok(0));
    assert_eq!(w.line_index(&mut s, &id, 3), Ok(0));
    assert_eq!(w.line_index(&mut s, &id, 4), Ok(1));
    assert_eq!(w.line_index(&mut s, &id, 8), Ok(2));
    assert_eq!(w.line_index(&mut s, &id, 9), Err(MapError::OutOfRange));
    assert_eq!(w.column_number(&mut s, &id, 6), Ok(2));
    assert_eq!(w.column_number(&mut s, &id, 4), Ok(0));
}

#[test]
fn line_ranges_include_the_newline() {
    let (mut w, mut s, id) = world_with(b"abc\ndef");
    assert_eq!(w.line_range(&mut s, &id, 0), Ok((0, 4)));
    assert_eq!(w.line_range(&mut s, &id, 1), Ok((4, 7)));
    assert_eq!(w.line_range(&mut s, &id, 2), Err(MapError::OutOfRange));
}

#[test]
fn columns_count_characters_not_bytes() {
    // Two-byte a-umlaut, then 'b': byte 3 is the third character.
    let (mut w, mut s, id) = world_with("\u{e4}\u{e4}b".as_bytes());
    assert_eq!(w.column_number(&mut s, &id, 4), Ok(2));
    // An offset in the middle of a character is an invalid boundary.
    assert_eq!(
        w.column_number(&mut s, &id, 1),
        Err(MapError::InvalidBoundary)
    );
}

#[test]
fn virtual_line_shift_moves_reported_lines() {
    let mut w = SystemWorld::new(segs(&["pkg", "main.typ"]), segs(&["pkg"])).unwrap();
    let mut store = FileStore::new();
    let id = local(&["README.md"]);
    // A fragment whose own line 1 holds the interesting span, embedded at
    // host line 42: the mapper reports 41 (0-indexed), i.e. line 42.
    w.virtual_source(&id, &b"#lorem\nipsum".to_vec(), 41).unwrap();
    assert_eq!(w.line_index(&mut store, &id, 2), Ok(41));
    assert_eq!(w.line_index(&mut store, &id, 8), Ok(42));
    // Translating a host line back subtracts the shift first.
    assert_eq!(w.line_range(&mut store, &id, 41), Ok((0, 7)));
    assert_eq!(w.line_range(&mut store, &id, 3), Err(MapError::OutOfRange));
}

#[test]
fn unreadable_files_degrade_to_an_error() {
    let mut w = SystemWorld::new(segs(&["pkg", "main.typ"]), segs(&["pkg"])).unwrap();
    let mut store = FileStore::new();
    let id = local(&["absent.typ"]);
    assert_eq!(
        w.line_index(&mut store, &id, 0),
        Err(MapError::Unreadable)
    );
}

#[test]
fn civil_dates_follow_the_gregorian_calendar() {
    assert_eq!(civil_of(0, 0), Date { year: 1970, month: 1, day: 1 });
    assert_eq!(civil_of(1700000000, 0), Date { year: 2023, month: 11, day: 14 });
    assert_eq!(civil_of(1700000000, 23 * 3600), Date { year: 2023, month: 11, day: 15 });
    assert_eq!(civil_of(1700000000, -11 * 3600), Date { year: 2023, month: 11, day: 14 });
    // Instants before the epoch clamp to its first day.
    assert_eq!(civil_of(-5, 0), Date { year: 1970, month: 1, day: 1 });
}

#[test]
fn today_is_fixed_within_one_job() {
    let mut w = SystemWorld::new(segs(&["pkg", "main.typ"]), segs(&["pkg"])).unwrap();
    let a = w.today(Some(0)).unwrap();
    let b = w.today(Some(0)).unwrap();
    assert_eq!(a, b);
    // An offset of a day or more cannot name a time zone.
    assert_eq!(w.today(Some(24)), None);
    assert_eq!(w.today(Some(-24)), None);
    assert!(w.today(None).is_some());
}
