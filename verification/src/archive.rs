//! The archive model and the trusted bindings to the `zip` and `glob`
//! crates.
//!
//! An archive (open reader, open writer, or serialized bytes) is modelled
//! as a sequence of entries, each a name with its content; directory
//! entries are names ending in a separator with empty content. The
//! bindings below are the only places where the library touches the
//! outside crates; everything else is verified against their contracts.

use std::io::Cursor;

use vstd::prelude::*;

use crate::errors::GuiError;

verus! {

/// An archive reader over an in-memory buffer.
pub type MemArchive = zip::ZipArchive<Cursor<Vec<u8>>>;

/// An archive writer over an in-memory buffer. `zip::ZipWriter`'s own
/// declaration carries trait bounds Verus cannot mirror, so the writer
/// is held in an opaque struct of the library's own; only the trusted
/// bindings below look inside.
#[verifier::external_body]
pub struct MemWriter {
    inner: zip::ZipWriter<Cursor<Vec<u8>>>,
}

/// One modelled archive: entry names with their content, in archive
/// order.
pub type EntrySeq = Seq<(Seq<char>, Seq<u8>)>;

#[verifier::external_type_specification]
#[verifier::external_body]
#[verifier::reject_recursive_types(T)]
pub struct ExCursor<T>(Cursor<T>);

#[verifier::external_type_specification]
#[verifier::external_body]
#[verifier::reject_recursive_types(R)]
pub struct ExZipArchive<R>(zip::ZipArchive<R>);

#[verifier::external_type_specification]
#[verifier::external_body]
pub struct ExGlobPattern(glob::Pattern);

/// The entries a live archive reader holds, in archive order.
pub uninterp spec fn archive_entries(a: MemArchive) -> EntrySeq;

/// The entries written to a live archive writer so far, in written order.
pub uninterp spec fn writer_entries(w: MemWriter) -> EntrySeq;

/// Whether the writer has a file entry open for appending content.
pub uninterp spec fn writer_open(w: MemWriter) -> bool;

/// What `zip`'s reader recovers from serialized bytes: the entry list of
/// a structurally valid archive, or nothing.
pub uninterp spec fn parsed_zip(bytes: Seq<u8>) -> Option<EntrySeq>;

/// Whether `glob`'s pattern compiler accepts the pattern text.
pub uninterp spec fn glob_parses(pattern: Seq<char>) -> bool;

/// The pattern text a compiled glob pattern was built from.
pub uninterp spec fn glob_source(p: glob::Pattern) -> Seq<char>;

/// Whether a name matches a glob pattern under the given options
/// (case sensitivity, literal separators, literal leading dots).
pub uninterp spec fn glob_matches(
    pattern: Seq<char>,
    name: Seq<char>,
    case_sensitive: bool,
    require_literal_separator: bool,
    require_literal_leading_dot: bool,
) -> bool;

/// Some entry carries this name.
pub open spec fn has_entry(entries: EntrySeq, name: Seq<char>) -> bool {
    exists|i: int| 0 <= i < entries.len() && #[trigger] entries[i].0 == name
}

/// The content of the entry with this name (meaningful when names are
/// distinct and the entry exists).
pub open spec fn entry_data(entries: EntrySeq, name: Seq<char>) -> Seq<u8> {
    entries[choose|i: int| 0 <= i < entries.len() && #[trigger] entries[i].0 == name].1
}

/// No two entries share a name. Both the reader and the writer keep
/// this: the reader indexes entries by name, and the writer refuses a
/// duplicate name.
pub open spec fn distinct_names(entries: EntrySeq) -> bool {
    forall|i: int, j: int|
        0 <= i < j < entries.len() ==> (#[trigger] entries[i].0) != (#[trigger] entries[j].0)
}

/// The entry name a directory is stored under: the given name with a
/// trailing separator appended unless one is already there.
pub open spec fn dir_entry_name(name: Seq<char>) -> Seq<char> {
    if name.len() > 0 && (name.last() == '/' || name.last() == '\\') {
        name
    } else {
        name.push('/')
    }
}

/// An entry name fits the format's 16-bit name-length field; `zip`'s
/// writer does not check this and fails badly past it, so the library
/// refuses longer names as invalid input.
pub open spec fn entry_name_fits(name: Seq<char>) -> bool {
    vstd::utf8::encode_utf8(name).len() <= 65535
}

/// A directory name fits the name-length field once its trailing
/// separator is appended (counted even when one is already there, so
/// the bound is one byte conservative).
pub open spec fn dir_name_fits(name: Seq<char>) -> bool {
    vstd::utf8::encode_utf8(name).len() + 1 <= 65535
}

/// Entry content small enough that neither the raw nor the compressed
/// size can overflow the format's 32-bit size fields: the writer aborts
/// raw content past 32 bits, and the margin below that leaves room for
/// the compressor's worst-case framing overhead.
pub open spec fn entry_data_fits(data: Seq<u8>) -> bool {
    data.len() <= 0xFFF0_0000
}

/// Every entry these serialized bytes hold reads back in full without
/// error (the container is structurally valid and every content stream
/// decompresses cleanly).
pub uninterp spec fn wellformed_zip(bytes: Seq<u8>) -> bool;

/// Every entry of this open reader reads back in full without error.
pub uninterp spec fn archive_clean(a: MemArchive) -> bool;

/// Under distinct names, an entry pins `entry_data` down.
pub proof fn lemma_entry_data_of(entries: EntrySeq, name: Seq<char>, i: int)
    requires
        distinct_names(entries),
        0 <= i < entries.len(),
        entries[i].0 == name,
    ensures
        has_entry(entries, name),
        entry_data(entries, name) == entries[i].1,
{
    let j = choose|j: int| 0 <= j < entries.len() && #[trigger] entries[j].0 == name;
    if i != j {
        assert(entries[i].0 != entries[j].0);
    }
}

/// Appending an entry under a fresh name keeps names distinct and gives
/// the new name the new content.
pub proof fn lemma_push_entry(entries: EntrySeq, name: Seq<char>, data: Seq<u8>)
    requires
        distinct_names(entries),
        !has_entry(entries, name),
    ensures
        distinct_names(entries.push((name, data))),
        has_entry(entries.push((name, data)), name),
        entry_data(entries.push((name, data)), name) == data,
    {
    let es = entries.push((name, data));
    assert forall|i: int, j: int| 0 <= i < j < es.len() implies (#[trigger] es[i].0) != (
    #[trigger] es[j].0) by {
        if j == entries.len() {
            assert(es[i].0 == entries[i].0);
            if es[i].0 == name {
                assert(has_entry(entries, name));
            }
        }
    }
    assert(es[es.len() - 1].0 == name);
    lemma_entry_data_of(es, name, es.len() - 1);
}

/// Relies on `zip::ZipArchive::new` over an in-memory cursor: it parses
/// the central directory, failing exactly on a structurally invalid
/// container (the cursor itself cannot fail), and indexes the entries by
/// name, so their names are distinct.
#[verifier::external_body]
pub(crate) fn zip_open(bytes: Vec<u8>) -> (r: Result<MemArchive, GuiError>)
    ensures
        r is Ok <==> parsed_zip(bytes@) is Some,
        r is Ok ==> Some(archive_entries(r->Ok_0)) == parsed_zip(bytes@),
        r is Ok ==> distinct_names(archive_entries(r->Ok_0)),
        r is Ok ==> archive_clean(r->Ok_0) == wellformed_zip(bytes@),
        r is Err ==> r->Err_0 == GuiError::CorruptArchive,
{
    match zip::ZipArchive::new(Cursor::new(bytes)) {
        Ok(a) => Ok(a),
        Err(_) => Err(GuiError::CorruptArchive),
    }
}

/// Relies on `zip::ZipArchive::len`: the number of entries.
#[verifier::external_body]
pub(crate) fn zip_len(a: &MemArchive) -> (r: usize)
    ensures
        r == archive_entries(*a).len(),
{
    a.len()
}

/// Relies on `zip::ZipArchive::index_for_name`: whether an entry with
/// exactly this name is present.
#[verifier::external_body]
pub(crate) fn zip_contains(a: &MemArchive, name: &str) -> (r: bool)
    ensures
        r == has_entry(archive_entries(*a), name@),
{
    match a.index_for_name(name) {
        Some(_) => true,
        None => false,
    }
}

/// Relies on `zip::ZipArchive::file_names`: every entry name, in archive
/// order.
#[verifier::external_body]
pub(crate) fn zip_file_names(a: &MemArchive) -> (r: Vec<String>)
    ensures
        r@.len() == archive_entries(*a).len(),
        forall|i: int| 0 <= i < r@.len() ==> (#[trigger] r@[i])@ == archive_entries(*a)[i].0,
{
    a.file_names().map(String::from).collect()
}

/// Relies on `zip::ZipArchive::by_name` and `Read::read_to_end` on the
/// borrowed entry (the entry handle borrows the archive, so the two
/// calls cannot be separated by a wrapper boundary): an absent name is
/// reported as such; a successful read returns the entry's full content,
/// and on a clean archive a present entry always reads back. A present
/// entry of a damaged archive may fail to decompress; that is never
/// reported as the absence error.
#[verifier::external_body]
pub(crate) fn zip_read_entry(a: &mut MemArchive, name: &str) -> (r: Result<Vec<u8>, GuiError>)
    ensures
        archive_entries(*final(a)) == archive_entries(*old(a)),
        archive_clean(*final(a)) == archive_clean(*old(a)),
        archive_clean(*old(a)) && has_entry(archive_entries(*old(a)), name@) ==> r is Ok,
        r is Ok ==> exists|i: int|
            0 <= i < archive_entries(*old(a)).len() && (#[trigger] archive_entries(
                *old(a),
            )[i]).0 == name@ && archive_entries(*old(a))[i].1 == r->Ok_0@,
        r is Err ==> (r->Err_0 == GuiError::EntryNotFound || r->Err_0 == GuiError::IoError
            || r->Err_0 == GuiError::ArchiveError),
        (r is Err && r->Err_0 == GuiError::EntryNotFound) <==> !has_entry(
            archive_entries(*old(a)),
            name@,
        ),
{
    match a.by_name(name) {
        Ok(mut entry) => {
            let mut out: Vec<u8> = Vec::new();
            match std::io::Read::read_to_end(&mut entry, &mut out) {
                Ok(_) => Ok(out),
                Err(_) => Err(GuiError::IoError),
            }
        },
        Err(zip::result::ZipError::FileNotFound) => Err(GuiError::EntryNotFound),
        Err(zip::result::ZipError::Io(_)) => Err(GuiError::IoError),
        Err(_) => Err(GuiError::ArchiveError),
    }
}

/// Relies on `zip::ZipWriter::new`: a fresh archive writer with no
/// entries and no file open.
#[verifier::external_body]
pub(crate) fn zip_writer_new() -> (r: MemWriter)
    ensures
        writer_entries(r) == Seq::<(Seq<char>, Seq<u8>)>::empty(),
        !writer_open(r),
{
    MemWriter { inner: zip::ZipWriter::new(Cursor::new(Vec::new())) }
}

/// Relies on `zip::ZipWriter::start_file`: begins a new, empty file
/// entry open for appending. A name already used is refused, and that is
/// the only failure over an in-memory buffer; an aborted entry is
/// removed again, leaving the entry list as it was. The writer panics on
/// names past the format's name-length field, so those are kept out.
#[verifier::external_body]
pub(crate) fn zip_start_file(w: &mut MemWriter, name: &str) -> (r: Result<(), GuiError>)
    requires
        entry_name_fits(name@),
    ensures
        r is Ok <==> !has_entry(writer_entries(*old(w)), name@),
        r is Ok ==> {
            &&& writer_entries(*final(w)) == writer_entries(*old(w)).push(
                (name@, Seq::<u8>::empty()),
            )
            &&& writer_open(*final(w))
        },
        r is Err ==> {
            &&& r->Err_0 == GuiError::ArchiveError
            &&& writer_entries(*final(w)) == writer_entries(*old(w))
        },
{
    match w.inner.start_file(name, zip::write::SimpleFileOptions::default()) {
        Ok(()) => Ok(()),
        Err(zip::result::ZipError::Io(_)) => Err(GuiError::IoError),
        Err(_) => Err(GuiError::ArchiveError),
    }
}

/// Relies on `zip`'s `Write::write_all` for `ZipWriter`: appends the
/// bytes to the file entry currently open. Writing to an in-memory
/// buffer cannot fail, and the writer's own abort threshold (it drops an
/// entry whose raw content passes 32 bits) is kept out by the content
/// bound, so the call always succeeds.
#[verifier::external_body]
pub(crate) fn zip_write_data(w: &mut MemWriter, data: &[u8]) -> (r: Result<(), GuiError>)
    requires
        writer_open(*old(w)),
        writer_entries(*old(w)).len() >= 1,
        entry_data_fits(
            writer_entries(*old(w))[writer_entries(*old(w)).len() - 1].1 + data@,
        ),
    ensures
        r is Ok,
        r is Ok ==> {
            let es = writer_entries(*old(w));
            let last = es[es.len() - 1];
            &&& writer_entries(*final(w)) == es.update(es.len() - 1, (last.0, last.1 + data@))
            &&& writer_open(*final(w))
        },
{
    match std::io::Write::write_all(&mut w.inner, data) {
        Ok(()) => Ok(()),
        Err(_) => Err(GuiError::IoError),
    }
}

/// Relies on `zip::ZipWriter::add_directory`: inserts a directory entry
/// under the name with a trailing separator appended if missing. A name
/// already used is refused, and that is the only failure over an
/// in-memory buffer. No file is open afterwards. The writer panics on
/// names past the format's name-length field, so those are kept out.
#[verifier::external_body]
pub(crate) fn zip_add_directory(w: &mut MemWriter, name: &str) -> (r: Result<(), GuiError>)
    requires
        dir_name_fits(name@),
    ensures
        r is Ok <==> !has_entry(writer_entries(*old(w)), dir_entry_name(name@)),
        r is Ok ==> {
            &&& writer_entries(*final(w)) == writer_entries(*old(w)).push(
                (dir_entry_name(name@), Seq::<u8>::empty()),
            )
            &&& !writer_open(*final(w))
        },
        r is Err ==> {
            &&& r->Err_0 == GuiError::ArchiveError
            &&& writer_entries(*final(w)) == writer_entries(*old(w))
        },
{
    match w.inner.add_directory(name, zip::write::SimpleFileOptions::default()) {
        Ok(()) => Ok(()),
        Err(zip::result::ZipError::Io(_)) => Err(GuiError::IoError),
        Err(_) => Err(GuiError::ArchiveError),
    }
}

/// Relies on `zip::ZipWriter::finish`: flushes the open entry, commits
/// the central directory and trailer, and hands back the backing
/// buffer. Finalizing into an in-memory buffer cannot fail, and the
/// produced bytes are a wellformed archive that parses back to exactly
/// the entries written.
#[verifier::external_body]
pub(crate) fn zip_finish(w: MemWriter) -> (r: Result<Vec<u8>, GuiError>)
    ensures
        r is Ok,
        r is Ok ==> parsed_zip(r->Ok_0@) == Some(writer_entries(w)),
        r is Ok ==> wellformed_zip(r->Ok_0@),
{
    match w.inner.finish() {
        Ok(cursor) => Ok(cursor.into_inner()),
        Err(zip::result::ZipError::Io(_)) => Err(GuiError::IoError),
        Err(_) => Err(GuiError::ArchiveError),
    }
}

/// Relies on `glob::Pattern::new`: compiles the pattern text, failing
/// exactly on malformed pattern syntax, and keeps the source text.
#[verifier::external_body]
pub(crate) fn glob_new(pattern: &str) -> (r: Result<glob::Pattern, GuiError>)
    ensures
        r is Ok <==> glob_parses(pattern@),
        r is Ok ==> glob_source(r->Ok_0) == pattern@,
        r is Err ==> r->Err_0 == GuiError::InvalidInput,
{
    match glob::Pattern::new(pattern) {
        Ok(p) => Ok(p),
        Err(_) => Err(GuiError::InvalidInput),
    }
}

/// Relies on `glob::Pattern::matches_with`: whether the name matches the
/// pattern under the given options; a pure function of the pattern text,
/// the name and the three options.
#[verifier::external_body]
pub(crate) fn glob_match(
    p: &glob::Pattern,
    name: &str,
    case_sensitive: bool,
    require_literal_separator: bool,
    require_literal_leading_dot: bool,
) -> (r: bool)
    ensures
        r == glob_matches(
            glob_source(*p),
            name@,
            case_sensitive,
            require_literal_separator,
            require_literal_leading_dot,
        ),
{
    let options = glob::MatchOptions {
        case_sensitive,
        require_literal_separator,
        require_literal_leading_dot,
    };
    p.matches_with(name, options)
}

/// Relies on `String::from_utf8`: accepts exactly valid UTF-8 and
/// decodes it; anything else is a decode failure.
#[verifier::external_body]
pub(crate) fn bytes_to_string(bytes: Vec<u8>) -> (r: Result<String, GuiError>)
    ensures
        r is Ok <==> vstd::utf8::valid_utf8(bytes@),
        r is Ok ==> r->Ok_0@ == vstd::utf8::decode_utf8(bytes@),
        r is Err ==> r->Err_0 == GuiError::DecodeError,
{
    match String::from_utf8(bytes) {
        Ok(s) => Ok(s),
        Err(_) => Err(GuiError::DecodeError),
    }
}

} // verus!
