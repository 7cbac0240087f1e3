use package_check::error::FileError;
use package_check::ident::{FileIdentifier, VirtualPath};
use package_check::store::FileStore;
use package_check::world::SystemWorld;

fn segs(parts: &[&str]) -> Vec<String> {
    parts.iter().map(|s| s.to_string()).collect()
}

fn local(parts: &[&str]) -> FileIdentifier {
    FileIdentifier::new(None, VirtualPath::new(segs(parts)))
}

fn world() -> SystemWorld {
    SystemWorld::new(segs(&["pkg", "main.typ"]), segs(&["pkg"])).unwrap()
}

#[test]
fn second_lookup_performs_no_backing_read_and_returns_the_same_value() {
    let mut w = world();
    let mut store = FileStore::new();
    store.insert(segs(&["pkg", "a.typ"]), b"hello".to_vec());
    let id = local(&["a.typ"]);
    let first = w.source(&mut store, &id).unwrap();
    let reads_after_first = store.reads();
    assert_eq!(reads_after_first, 1);
    let second = w.source(&mut store, &id).unwrap();
    assert_eq!(store.reads(), reads_after_first);
    assert_eq!(first.as_bytes(), second.as_bytes());
}

#[test]
fn changed_bytes_invalidate_the_cache_on_the_next_pass() {
    let mut w = world();
    let mut store = FileStore::new();
    store.insert(segs(&["pkg", "a.typ"]), b"old content".to_vec());
    let id = local(&["a.typ"]);
    let first = w.source(&mut store, &id).unwrap();
    assert_eq!(first.as_bytes().as_slice(), b"old content");

    store.insert(segs(&["pkg", "a.typ"]), b"new content".to_vec());
    // Within the same pass the slot is not re-read.
    let same_pass = w.source(&mut store, &id).unwrap();
    assert_eq!(same_pass.as_bytes().as_slice(), b"old content");

    // A new pass re-reads; the changed fingerprint forces a fresh decode.
    w.reset();
    let second = w.source(&mut store, &id).unwrap();
    assert_eq!(second.as_bytes().as_slice(), b"new content");
}

#[test]
fn unchanged_bytes_are_not_redecoded_but_are_reread() {
    let mut w = world();
    let mut store = FileStore::new();
    store.insert(segs(&["pkg", "a.typ"]), b"same".to_vec());
    let id = local(&["a.typ"]);
    let first = w.source(&mut store, &id).unwrap();
    w.reset();
    let second = w.source(&mut store, &id).unwrap();
    assert_eq!(store.reads(), 2);
    assert_eq!(first.as_bytes(), second.as_bytes());
}

#[test]
fn text_decoding_strips_a_byte_order_mark() {
    let mut w = world();
    let mut store = FileStore::new();
    store.insert(segs(&["pkg", "bom.typ"]), b"\xef\xbb\xbfabc".to_vec());
    let id = local(&["bom.typ"]);
    let text = w.source(&mut store, &id).unwrap();
    assert_eq!(text.as_bytes().as_slice(), b"abc");
    // The raw-bytes projection keeps the mark.
    let raw = w.file(&mut store, &id).unwrap();
    assert_eq!(raw.as_slice(), b"\xef\xbb\xbfabc");
}

#[test]
fn invalid_encoding_is_a_terminal_error_for_the_slot() {
    let mut w = world();
    let mut store = FileStore::new();
    store.insert(segs(&["pkg", "bin.dat"]), vec![0xff, 0xfe, 0x00]);
    let id = local(&["bin.dat"]);
    assert_eq!(w.source(&mut store, &id), Err(FileError::InvalidEncoding));
    // The bytes projection still succeeds.
    assert_eq!(w.file(&mut store, &id).unwrap(), vec![0xff, 0xfe, 0x00]);
}

#[test]
fn missing_files_are_not_found() {
    let mut w = world();
    let mut store = FileStore::new();
    let id = local(&["absent.typ"]);
    assert_eq!(w.source(&mut store, &id), Err(FileError::NotFound));
}

#[test]
fn excluded_files_never_yield_their_content() {
    let mut w = world();
    let mut store = FileStore::new();
    store.insert(segs(&["pkg", "secret.typ"]), b"hidden".to_vec());
    let filter =
        package_check::exclude::exclude_filter_from_globs(&segs(&["secret.typ"])).unwrap();
    w.exclude(filter);
    let id = local(&["secret.typ"]);
    assert_eq!(w.source(&mut store, &id), Err(FileError::Excluded));
    // Plain store access would have succeeded: exclusion is enforced at
    // resolution time, not at the consumer's discretion.
    assert!(store.read(&segs(&["pkg", "secret.typ"])).is_ok());
    // Clearing the filter for a reporting pass makes the file readable.
    w.exclude(package_check::exclude::empty_exclude());
    w.reset();
    assert_eq!(
        w.source(&mut store, &id).unwrap().as_bytes().as_slice(),
        b"hidden"
    );
}

#[test]
fn a_filter_installed_for_a_new_pass_beats_older_cached_content() {
    let mut w = world();
    let mut store = FileStore::new();
    store.insert(segs(&["pkg", "late.typ"]), b"was readable".to_vec());
    let id = local(&["late.typ"]);
    assert!(w.source(&mut store, &id).is_ok());
    // Excluding the file and starting a new pass hides it, even though its
    // content is still cached from the earlier pass.
    let filter =
        package_check::exclude::exclude_filter_from_globs(&segs(&["late.typ"])).unwrap();
    w.exclude(filter);
    w.reset();
    assert_eq!(w.source(&mut store, &id), Err(FileError::Excluded));
}

#[test]
fn virtual_slots_serve_supplied_bytes() {
    let mut w = world();
    let id = local(&["README.md"]);
    let text = w.virtual_source(&id, &b"#set text()".to_vec(), 7).unwrap();
    assert_eq!(text.as_bytes().as_slice(), b"#set text()");
    assert_eq!(w.virtual_line(&id), 7);
    assert_eq!(w.virtual_line(&local(&["other.typ"])), 0);
}
