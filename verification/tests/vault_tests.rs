use ucp_gui_core::errors::GuiError;
use ucp_gui_core::vault::ZipCollectionsState;
use ucp_gui_core::zip_utils::{
    close_zip, exist_zip_entry, get_zip_entry_as_binary, get_zip_entry_as_text, load_zip,
};

/// Build an archive holding the given entries and hand back its bytes.
fn archive_with(entries: &[(&str, &[u8])]) -> Vec<u8> {
    let mut state = ZipCollectionsState::new();
    let id = state.load_zip_writer();
    for (name, data) in entries {
        state.write_entry_from_binary(id, name, data).unwrap();
    }
    state.free_writer(id).unwrap()
}

#[test]
fn scenario_write_close_reopen_read() {
    let mut state = ZipCollectionsState::new();
    let w = state.load_zip_writer();
    state.add_directory(w, "data/").unwrap();
    state.write_entry_from_text(w, "data/hello.txt", "hi").unwrap();
    let bytes = state.free_writer(w).unwrap();

    let r = state.load_zip_reader(bytes).unwrap();
    assert_eq!(state.exist(r, "data/hello.txt"), Ok(true));
    assert_eq!(state.get_entry_as_text(r, "data/hello.txt").unwrap(), "hi");
    assert_eq!(state.exist(r, "data/"), Ok(true));
    assert_eq!(state.get_number_of_entries(r), Ok(2));
    assert_eq!(state.is_empty(r), Ok(false));
    state.free_reader(r).unwrap();
}

#[test]
fn round_trip_arbitrary_bytes() {
    let cases: Vec<Vec<u8>> = vec![
        vec![],
        vec![0u8],
        vec![0xff, 0xfe, 0x00, 0x80, 0x01],
        (0..=255u8).collect(),
    ];
    for (i, data) in cases.iter().enumerate() {
        let name = format!("blob{i}.bin");
        let bytes = archive_with(&[(name.as_str(), data.as_slice())]);
        let mut state = ZipCollectionsState::new();
        let r = state.load_zip_reader(bytes).unwrap();
        assert_eq!(state.get_entry_as_binary(r, name.as_str()).unwrap(), *data);
    }
}

#[test]
fn close_then_lookup_fails_with_handle_not_found() {
    let bytes = archive_with(&[("a.txt", b"a")]);
    let mut state = ZipCollectionsState::new();
    let id = state.load_zip_reader(bytes).unwrap();
    assert_eq!(state.free_reader(id), Ok(()));
    assert_eq!(state.exist(id, "a.txt"), Err(GuiError::HandleNotFound));
    assert_eq!(state.get_entry_as_binary(id, "a.txt"), Err(GuiError::HandleNotFound));
    assert_eq!(state.get_entry_names(id, ""), Err(GuiError::HandleNotFound));
    assert_eq!(state.free_reader(id), Err(GuiError::HandleNotFound));
}

#[test]
fn closed_writer_identifier_is_gone() {
    let mut state = ZipCollectionsState::new();
    let w = state.load_zip_writer();
    state.free_writer(w).unwrap();
    assert_eq!(state.add_directory(w, "d"), Err(GuiError::HandleNotFound));
    assert_eq!(
        state.write_entry_from_binary(w, "x", b"y"),
        Err(GuiError::HandleNotFound)
    );
    assert_eq!(state.free_writer(w), Err(GuiError::HandleNotFound));
}

#[test]
fn many_opens_yield_distinct_identifiers() {
    let bytes = archive_with(&[("a.txt", b"a")]);
    let mut state = ZipCollectionsState::new();
    let mut ids: Vec<u64> = Vec::new();
    for _ in 0..100 {
        ids.push(state.load_zip_reader(bytes.clone()).unwrap());
    }
    // Closing does not let a later open reuse a freed identifier.
    state.free_reader(ids[50]).unwrap();
    ids.push(state.load_zip_reader(bytes).unwrap());
    for i in 0..ids.len() {
        for j in (i + 1)..ids.len() {
            assert_ne!(ids[i], ids[j]);
        }
    }
}

#[test]
fn reader_and_writer_namespaces_are_independent() {
    let bytes = archive_with(&[("a.txt", b"a")]);
    let mut state = ZipCollectionsState::new();
    let r = state.load_zip_reader(bytes).unwrap();
    let w = state.load_zip_writer();
    // The same numeric value may appear in both namespaces.
    assert_eq!(r, 0);
    assert_eq!(w, 0);
    // Closing the writer leaves the reader alive.
    state.free_writer(w).unwrap();
    assert_eq!(state.exist(r, "a.txt"), Ok(true));
}

#[test]
fn corrupt_bytes_are_rejected() {
    let mut state = ZipCollectionsState::new();
    let r = state.load_zip_reader(vec![1, 2, 3, 4, 5]);
    assert_eq!(r, Err(GuiError::CorruptArchive));
}

#[test]
fn absent_entry_is_false_not_an_error() {
    let bytes = archive_with(&[("a.txt", b"a")]);
    let mut state = ZipCollectionsState::new();
    let id = state.load_zip_reader(bytes).unwrap();
    assert_eq!(state.exist(id, "missing.txt"), Ok(false));
    assert_eq!(
        state.get_entry_as_binary(id, "missing.txt"),
        Err(GuiError::EntryNotFound)
    );
}

#[test]
fn non_utf8_content_is_a_decode_error() {
    let bytes = archive_with(&[("bin.dat", &[0xff, 0xfe, 0x01][..])]);
    let mut state = ZipCollectionsState::new();
    let id = state.load_zip_reader(bytes).unwrap();
    assert_eq!(state.get_entry_as_text(id, "bin.dat"), Err(GuiError::DecodeError));
}

#[test]
fn duplicate_entry_name_is_refused() {
    let mut state = ZipCollectionsState::new();
    let w = state.load_zip_writer();
    state.write_entry_from_binary(w, "a.txt", b"one").unwrap();
    assert_eq!(
        state.write_entry_from_binary(w, "a.txt", b"two"),
        Err(GuiError::ArchiveError)
    );
    // The archive stays closeable and keeps the first entry.
    let bytes = state.free_writer(w).unwrap();
    let id = state.load_zip_reader(bytes).unwrap();
    assert_eq!(state.get_entry_as_binary(id, "a.txt").unwrap(), b"one");
}

#[test]
fn overlong_entry_names_are_invalid_input() {
    let mut state = ZipCollectionsState::new();
    let w = state.load_zip_writer();
    // One byte over the format's 16-bit name-length field.
    let long_name = "n".repeat(65536);
    assert_eq!(
        state.write_entry_from_binary(w, long_name.as_str(), b"x"),
        Err(GuiError::InvalidInput)
    );
    // A name that exactly fits still works.
    let edge_name = "n".repeat(65535);
    assert_eq!(state.write_entry_from_binary(w, edge_name.as_str(), b"x"), Ok(()));
    // Directory names must leave room for the appended separator.
    let long_dir = "d".repeat(65535);
    assert_eq!(state.add_directory(w, long_dir.as_str()), Err(GuiError::InvalidInput));
    let edge_dir = "d".repeat(65534);
    assert_eq!(state.add_directory(w, edge_dir.as_str()), Ok(()));
    // The archive stays closeable and holds both accepted entries.
    let bytes = state.free_writer(w).unwrap();
    let id = state.load_zip_reader(bytes).unwrap();
    assert_eq!(state.get_number_of_entries(id), Ok(2));
}

#[test]
fn directory_name_gets_a_trailing_separator() {
    let mut state = ZipCollectionsState::new();
    let w = state.load_zip_writer();
    state.add_directory(w, "plain").unwrap();
    state.add_directory(w, "slashed/").unwrap();
    let bytes = state.free_writer(w).unwrap();
    let id = state.load_zip_reader(bytes).unwrap();
    let names = state.get_entry_names(id, "").unwrap();
    assert_eq!(names, vec!["plain/".to_string(), "slashed/".to_string()]);
}

#[test]
fn empty_pattern_lists_every_entry_in_order() {
    let bytes = archive_with(&[
        ("b.txt", b"1"),
        ("a.txt", b"2"),
        ("sub/c.md", b"3"),
    ]);
    let mut state = ZipCollectionsState::new();
    let id = state.load_zip_reader(bytes).unwrap();
    let names = state.get_entry_names(id, "").unwrap();
    assert_eq!(
        names,
        vec!["b.txt".to_string(), "a.txt".to_string(), "sub/c.md".to_string()]
    );
}

#[test]
fn listing_is_case_sensitive_and_literal() {
    let bytes = archive_with(&[
        ("A.txt", b"1"),
        ("a.txt", b"2"),
        ("sub/d.txt", b"3"),
        (".hidden.txt", b"4"),
    ]);
    let mut state = ZipCollectionsState::new();
    let id = state.load_zip_reader(bytes).unwrap();

    // Case-sensitive: "A.txt" does not match pattern "a.txt".
    assert_eq!(state.get_entry_names(id, "a.txt").unwrap(), vec!["a.txt".to_string()]);
    // A literal non-matching pattern yields an empty sequence.
    assert_eq!(state.get_entry_names(id, "zzz").unwrap(), Vec::<String>::new());
    // "*" does not cross a path separator.
    assert_eq!(
        state.get_entry_names(id, "*.txt").unwrap(),
        vec!["A.txt".to_string(), "a.txt".to_string()]
    );
    assert_eq!(
        state.get_entry_names(id, "sub/*.txt").unwrap(),
        vec!["sub/d.txt".to_string()]
    );
    // A leading dot must be matched literally.
    assert_eq!(
        state.get_entry_names(id, ".*.txt").unwrap(),
        vec![".hidden.txt".to_string()]
    );
    // A malformed pattern is invalid input.
    assert_eq!(state.get_entry_names(id, "[oops"), Err(GuiError::InvalidInput));
}

#[test]
fn flat_interface_round_trip() {
    let bytes = archive_with(&[("doc.txt", b"text body"), ("raw.bin", &[0u8, 255][..])]);
    let mut state = ZipCollectionsState::new();
    let id = load_zip(&mut state, bytes).unwrap();
    assert_eq!(exist_zip_entry(&state, id, "doc.txt"), Ok(true));
    assert_eq!(exist_zip_entry(&state, id, "nope"), Ok(false));
    assert_eq!(
        get_zip_entry_as_text(&mut state, id, "doc.txt").unwrap(),
        "text body"
    );
    assert_eq!(
        get_zip_entry_as_binary(&mut state, id, "raw.bin").unwrap(),
        vec![0u8, 255]
    );
    assert_eq!(close_zip(&mut state, id), Ok(()));
    assert_eq!(close_zip(&mut state, id), Err(GuiError::HandleNotFound));
    assert_eq!(
        get_zip_entry_as_text(&mut state, id, "doc.txt"),
        Err(GuiError::HandleNotFound)
    );
}

#[test]
fn load_zip_rejects_garbage() {
    let mut state = ZipCollectionsState::new();
    assert_eq!(
        load_zip(&mut state, b"not a zip at all".to_vec()),
        Err(GuiError::CorruptArchive)
    );
}

#[test]
fn error_codes_are_stable() {
    assert_eq!(GuiError::InvalidInput.code(), "error.invalid.input");
    assert_eq!(GuiError::NotFound.code(), "error.not.found");
    assert_eq!(GuiError::HandleNotFound.code(), "zip.id.missing");
    assert_eq!(GuiError::CorruptArchive.code(), "error.archive.corrupt");
    assert_eq!(GuiError::ArchiveError.code(), "error.archive");
    assert_eq!(GuiError::EntryNotFound.code(), "error.entry.missing");
    assert_eq!(GuiError::DecodeError.code(), "error.decode");
    assert_eq!(GuiError::IoError.code(), "error.io");
}
