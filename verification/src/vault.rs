//! The process-wide resource registry for open archive readers and
//! writers.
//!
//! The registry holds two independent namespaces (readers and writers)
//! mapping numeric identifiers to live archive resources. It is the sole
//! authority for creating and destroying them: callers hold only the
//! opaque identifiers, every operation looks the resource up afresh, and
//! a lookup after close always and only reports `HandleNotFound`.
//! Callers that share one registry across threads wrap it in a mutual
//! exclusion primitive; every operation here takes the registry
//! exclusively, which is what that lock enforces at run time.

use vstd::prelude::*;

use crate::archive::{
    archive_clean, archive_entries, bytes_to_string, dir_entry_name, dir_name_fits,
    distinct_names, entry_data, entry_data_fits, entry_name_fits, glob_match, glob_matches,
    glob_new, glob_parses, glob_source, has_entry, lemma_entry_data_of, lemma_push_entry,
    parsed_zip, wellformed_zip, writer_entries, zip_add_directory, zip_contains, zip_file_names,
    zip_finish, zip_len, zip_open, zip_read_entry, zip_start_file, zip_write_data, zip_writer_new,
    EntrySeq, MemArchive, MemWriter,
};
use crate::errors::GuiError;
use crate::registry::Namespace;
use vstd::string::StringSliceAdditionalSpecFns;

verus! {

/// The names of the entries, in archive order.
pub open spec fn entry_names(es: EntrySeq) -> Seq<Seq<char>> {
    Seq::new(es.len(), |i: int| es[i].0)
}

/// The entry names that match a glob pattern, in archive order, under
/// the registry's pinned matching options: case-sensitive, a literal
/// separator only matches a separator, a literal leading dot only
/// matches a leading dot.
pub open spec fn matching_names(names: Seq<Seq<char>>, pattern: Seq<char>) -> Seq<Seq<char>>
    decreases names.len(),
{
    if names.len() == 0 {
        Seq::empty()
    } else {
        let rest = matching_names(names.drop_last(), pattern);
        if glob_matches(pattern, names.last(), true, true, true) {
            rest.push(names.last())
        } else {
            rest
        }
    }
}

/// Two registry states with the same tables are equally well formed.
proof fn lemma_same_tables_keep_wf(a: ZipCollectionsState, b: ZipCollectionsState)
    requires
        a.wf(),
        b.readers() == a.readers(),
        b.writers() == a.writers(),
        b.next_reader_id() == a.next_reader_id(),
        b.next_writer_id() == a.next_writer_id(),
    ensures
        b.wf(),
{
    assert forall|i: u64| #[trigger] b.readers().dom().contains(i) implies distinct_names(
        archive_entries(b.readers()[i]),
    ) by {
        assert(a.readers().dom().contains(i));
    }
    assert forall|i: u64| #[trigger] b.writers().dom().contains(i) implies distinct_names(
        writer_entries(b.writers()[i]),
    ) by {
        assert(a.writers().dom().contains(i));
    }
    assert forall|i: u64| #[trigger] b.readers().dom().contains(i) implies i
        < b.next_reader_id() by {
        assert(a.readers().dom().contains(i));
    }
    assert forall|i: u64| #[trigger] b.writers().dom().contains(i) implies i
        < b.next_writer_id() by {
        assert(a.writers().dom().contains(i));
    }
}

/// The registry: reader and writer namespaces, independent of each
/// other.
pub struct ZipCollectionsState {
    reader: Namespace<MemArchive>,
    writer: Namespace<MemWriter>,
}

impl ZipCollectionsState {
    /// The live readers, modelled by their entries.
    pub closed spec fn reader_model(&self) -> Map<u64, EntrySeq> {
        Map::new(
            |i: u64| self.readers().dom().contains(i),
            |i: u64| archive_entries(self.readers()[i]),
        )
    }

    /// The live writers, modelled by the entries written so far.
    pub closed spec fn writer_model(&self) -> Map<u64, EntrySeq> {
        Map::new(
            |i: u64| self.writers().dom().contains(i),
            |i: u64| writer_entries(self.writers()[i]),
        )
    }

    /// Which live readers are clean: every entry of a clean reader's
    /// archive reads back in full, so reads on it are owed success. A
    /// reader opened on arbitrary bytes may parse and still be damaged.
    pub closed spec fn reader_clean(&self) -> Map<u64, bool> {
        Map::new(
            |i: u64| self.readers().dom().contains(i),
            |i: u64| archive_clean(self.readers()[i]),
        )
    }

    /// The raw reader namespace table.
    pub closed spec fn readers(&self) -> Map<u64, MemArchive> {
        self.reader.table()
    }

    /// The raw writer namespace table.
    pub closed spec fn writers(&self) -> Map<u64, MemWriter> {
        self.writer.table()
    }

    /// The next identifier each namespace will mint.
    pub closed spec fn next_reader_id(&self) -> u64 {
        self.reader.next_id_spec()
    }

    /// See `next_reader_id`.
    pub closed spec fn next_writer_id(&self) -> u64 {
        self.writer.next_id_spec()
    }

    /// Well-formedness: both namespaces mint fresh identifiers, and
    /// every live archive keeps its entry names distinct.
    pub closed spec fn wf(&self) -> bool {
        &&& self.reader.wf()
        &&& self.writer.wf()
        &&& forall|i: u64| #[trigger]
            self.readers().dom().contains(i) ==> distinct_names(
                archive_entries(self.readers()[i]),
            )
        &&& forall|i: u64| #[trigger]
            self.writers().dom().contains(i) ==> distinct_names(writer_entries(self.writers()[i]))
    }

    /// A registry with no live resources.
    pub fn new() -> (r: ZipCollectionsState)
        ensures
            r.wf(),
            r.reader_model() == Map::<u64, EntrySeq>::empty(),
            r.writer_model() == Map::<u64, EntrySeq>::empty(),
            r.reader_clean() == Map::<u64, bool>::empty(),
            r.next_reader_id() == 0,
            r.next_writer_id() == 0,
    {
        let r = ZipCollectionsState { reader: Namespace::new(), writer: Namespace::new() };
        proof {
            assert(r.reader_model() =~= Map::<u64, EntrySeq>::empty());
            assert(r.writer_model() =~= Map::<u64, EntrySeq>::empty());
            assert(r.reader_clean() =~= Map::<u64, bool>::empty());
        }
        r
    }

    /// Whether each namespace can still mint an identifier; exhausting
    /// the 64-bit counters is a documented non-goal, but callers can
    /// check rather than rely on that.
    pub fn can_open_reader(&self) -> (r: bool)
        ensures
            r == (self.next_reader_id() < u64::MAX),
    {
        self.reader.can_mint()
    }

    /// See `can_open_reader`.
    pub fn can_open_writer(&self) -> (r: bool)
        ensures
            r == (self.next_writer_id() < u64::MAX),
    {
        self.writer.can_mint()
    }

    /// Store an open archive reader under a freshly minted identifier.
    fn register_reader(&mut self, archive: MemArchive) -> (r: u64)
        requires
            old(self).wf(),
            old(self).next_reader_id() < u64::MAX,
            distinct_names(archive_entries(archive)),
        ensures
            final(self).wf(),
            !old(self).reader_model().dom().contains(r),
            final(self).reader_model() == old(self).reader_model().insert(
                r,
                archive_entries(archive),
            ),
            final(self).writer_model() == old(self).writer_model(),
            final(self).writers() == old(self).writers(),
            final(self).reader_clean() == old(self).reader_clean().insert(
                r,
                archive_clean(archive),
            ),
            final(self).next_reader_id() == old(self).next_reader_id() + 1,
            final(self).next_writer_id() == old(self).next_writer_id(),
    {
        let id = self.reader.register(archive);
        proof {
            assert(final(self).reader_model() =~= old(self).reader_model().insert(
                id,
                archive_entries(archive),
            ));
            assert(final(self).writer_model() =~= old(self).writer_model());
            assert(final(self).reader_clean() =~= old(self).reader_clean().insert(
                id,
                archive_clean(archive),
            ));
        }
        id
    }

    /// Open a reader over the serialized bytes of an archive, store it,
    /// and return its identifier. Fails with `CorruptArchive` exactly
    /// when the container's structure cannot be parsed.
    pub fn load_zip_reader(&mut self, source: Vec<u8>) -> (r: Result<u64, GuiError>)
        requires
            old(self).wf(),
            old(self).next_reader_id() < u64::MAX,
        ensures
            final(self).wf(),
            final(self).writer_model() == old(self).writer_model(),
            final(self).next_writer_id() == old(self).next_writer_id(),
            r is Ok <==> parsed_zip(source@) is Some,
            r is Err ==> {
                &&& r->Err_0 == GuiError::CorruptArchive
                &&& final(self).reader_model() == old(self).reader_model()
                &&& final(self).reader_clean() == old(self).reader_clean()
                &&& final(self).next_reader_id() == old(self).next_reader_id()
            },
            r is Ok ==> {
                &&& !old(self).reader_model().dom().contains(r->Ok_0)
                &&& final(self).reader_model() == old(self).reader_model().insert(
                    r->Ok_0,
                    parsed_zip(source@)->Some_0,
                )
                &&& final(self).reader_clean() == old(self).reader_clean().insert(
                    r->Ok_0,
                    wellformed_zip(source@),
                )
                &&& final(self).next_reader_id() == old(self).next_reader_id() + 1
            },
    {
        match zip_open(source) {
            Ok(archive) => Ok(self.register_reader(archive)),
            Err(e) => {
                proof {
                    assert(final(self).reader_model() =~= old(self).reader_model());
                    assert(final(self).writer_model() =~= old(self).writer_model());
                    assert(final(self).reader_clean() =~= old(self).reader_clean());
                }
                Err(e)
            },
        }
    }

    /// Destroy the reader under the identifier. A missing identifier is
    /// `HandleNotFound`; afterwards the identifier is no longer live
    /// either way.
    pub fn free_reader(&mut self, id: u64) -> (r: Result<(), GuiError>)
        requires
            old(self).wf(),
        ensures
            final(self).wf(),
            r is Ok <==> old(self).reader_model().dom().contains(id),
            r is Err ==> r->Err_0 == GuiError::HandleNotFound,
            final(self).reader_model() == old(self).reader_model().remove(id),
            final(self).reader_clean() == old(self).reader_clean().remove(id),
            final(self).writer_model() == old(self).writer_model(),
            final(self).next_reader_id() == old(self).next_reader_id(),
            final(self).next_writer_id() == old(self).next_writer_id(),
    {
        let r = match self.reader.remove(id) {
            Some(_archive) => Ok(()),
            None => Err(GuiError::HandleNotFound),
        };
        proof {
            assert(final(self).reader_model() =~= old(self).reader_model().remove(id));
            assert(final(self).reader_clean() =~= old(self).reader_clean().remove(id));
            assert(final(self).writer_model() =~= old(self).writer_model());
        }
        r
    }

    /// Whether the reader's archive holds no entries at all.
    pub fn is_empty(&self, id: u64) -> (r: Result<bool, GuiError>)
        ensures
            r is Err <==> !self.reader_model().dom().contains(id),
            r is Err ==> r->Err_0 == GuiError::HandleNotFound,
            r is Ok ==> r->Ok_0 == (self.reader_model()[id].len() == 0),
    {
        match self.reader.get(id) {
            Some(archive) => Ok(zip_len(archive) == 0),
            None => Err(GuiError::HandleNotFound),
        }
    }

    /// The number of entries in the reader's archive.
    pub fn get_number_of_entries(&self, id: u64) -> (r: Result<usize, GuiError>)
        ensures
            r is Err <==> !self.reader_model().dom().contains(id),
            r is Err ==> r->Err_0 == GuiError::HandleNotFound,
            r is Ok ==> r->Ok_0 == self.reader_model()[id].len(),
    {
        match self.reader.get(id) {
            Some(archive) => Ok(zip_len(archive)),
            None => Err(GuiError::HandleNotFound),
        }
    }

    /// Whether an entry with exactly this name exists. Absence of the
    /// entry is `false`, never a failure; only a missing identifier is.
    pub fn exist(&self, id: u64, path: &str) -> (r: Result<bool, GuiError>)
        ensures
            r is Err <==> !self.reader_model().dom().contains(id),
            r is Err ==> r->Err_0 == GuiError::HandleNotFound,
            r is Ok ==> r->Ok_0 == has_entry(self.reader_model()[id], path@),
    {
        match self.reader.get(id) {
            Some(archive) => Ok(zip_contains(archive, path)),
            None => Err(GuiError::HandleNotFound),
        }
    }

    /// Read an entry's full content as bytes. `EntryNotFound` reports a
    /// present handle whose archive lacks the entry; on a clean archive
    /// a present entry is owed success, and only reads from a damaged
    /// archive surface `IoError` or `ArchiveError`.
    #[verifier::rlimit(50)]
    pub fn get_entry_as_binary(&mut self, id: u64, path: &str) -> (r: Result<Vec<u8>, GuiError>)
        requires
            old(self).wf(),
        ensures
            final(self).wf(),
            final(self).reader_model() == old(self).reader_model(),
            final(self).reader_clean() == old(self).reader_clean(),
            final(self).writer_model() == old(self).writer_model(),
            final(self).next_reader_id() == old(self).next_reader_id(),
            final(self).next_writer_id() == old(self).next_writer_id(),
            (old(self).reader_model().dom().contains(id) && old(self).reader_clean()[id]
                && has_entry(old(self).reader_model()[id], path@)) ==> r is Ok,
            (r is Err && r->Err_0 == GuiError::HandleNotFound) <==> !old(
                self,
            ).reader_model().dom().contains(id),
            (r is Err && r->Err_0 == GuiError::EntryNotFound) <==> (old(
                self,
            ).reader_model().dom().contains(id) && !has_entry(old(self).reader_model()[id], path@)),
            r is Ok ==> {
                &&& old(self).reader_model().dom().contains(id)
                &&& has_entry(old(self).reader_model()[id], path@)
                &&& r->Ok_0@ == entry_data(old(self).reader_model()[id], path@)
            },
            r is Err ==> (r->Err_0 == GuiError::HandleNotFound || r->Err_0
                == GuiError::EntryNotFound || r->Err_0 == GuiError::IoError || r->Err_0
                == GuiError::ArchiveError),
    {
        match self.reader.remove(id) {
            None => {
                proof {
                    assert(final(self).reader_model() =~= old(self).reader_model());
                    assert(final(self).reader_clean() =~= old(self).reader_clean());
                    assert(final(self).writer_model() =~= old(self).writer_model());
                    lemma_same_tables_keep_wf(*old(self), *self);
                }
                Err(GuiError::HandleNotFound)
            },
            Some(mut archive) => {
                let res = zip_read_entry(&mut archive, path);
                self.reader.put_back(id, archive);
                proof {
                    assert(final(self).reader_model() =~= old(self).reader_model());
                    assert(final(self).reader_clean() =~= old(self).reader_clean());
                    assert(final(self).writer_model() =~= old(self).writer_model());
                    assert forall|i: u64| #[trigger] self.readers().dom().contains(i)
                        implies distinct_names(archive_entries(self.readers()[i])) by {
                        assert(old(self).readers().dom().contains(i));
                        if i != id {
                            assert(self.readers()[i] == old(self).readers()[i]);
                        } else {
                            assert(archive_entries(self.readers()[i]) == archive_entries(
                                old(self).readers()[i],
                            ));
                        }
                    }
                    assert forall|i: u64| #[trigger] self.writers().dom().contains(i)
                        implies distinct_names(writer_entries(self.writers()[i])) by {
                        assert(old(self).writers().dom().contains(i));
                        assert(self.writers()[i] == old(self).writers()[i]);
                    }
                    assert(self.wf());
                    if res is Ok {
                        let es = archive_entries(old(self).readers()[id]);
                        let i = choose|i: int|
                            0 <= i < es.len() && (#[trigger] es[i]).0 == path@ && es[i].1
                                == res->Ok_0@;
                        lemma_entry_data_of(es, path@, i);
                    }
                }
                res
            },
        }
    }

    /// Read an entry's full content as UTF-8 text. Non-text content is
    /// `DecodeError`: on a clean archive, exactly when the present
    /// entry's bytes are not valid UTF-8, and a present text entry is
    /// owed success.
    pub fn get_entry_as_text(&mut self, id: u64, path: &str) -> (r: Result<String, GuiError>)
        requires
            old(self).wf(),
        ensures
            final(self).wf(),
            final(self).reader_model() == old(self).reader_model(),
            final(self).reader_clean() == old(self).reader_clean(),
            final(self).writer_model() == old(self).writer_model(),
            final(self).next_reader_id() == old(self).next_reader_id(),
            final(self).next_writer_id() == old(self).next_writer_id(),
            (old(self).reader_model().dom().contains(id) && old(self).reader_clean()[id]
                && has_entry(old(self).reader_model()[id], path@) && vstd::utf8::valid_utf8(
                entry_data(old(self).reader_model()[id], path@),
            )) ==> r is Ok,
            (old(self).reader_model().dom().contains(id) && old(self).reader_clean()[id]
                && has_entry(old(self).reader_model()[id], path@) && !vstd::utf8::valid_utf8(
                entry_data(old(self).reader_model()[id], path@),
            )) ==> (r is Err && r->Err_0 == GuiError::DecodeError),
            (r is Err && r->Err_0 == GuiError::HandleNotFound) <==> !old(
                self,
            ).reader_model().dom().contains(id),
            (r is Err && r->Err_0 == GuiError::EntryNotFound) <==> (old(
                self,
            ).reader_model().dom().contains(id) && !has_entry(old(self).reader_model()[id], path@)),
            r is Ok ==> {
                &&& old(self).reader_model().dom().contains(id)
                &&& has_entry(old(self).reader_model()[id], path@)
                &&& vstd::utf8::valid_utf8(entry_data(old(self).reader_model()[id], path@))
                &&& r->Ok_0@ == vstd::utf8::decode_utf8(
                    entry_data(old(self).reader_model()[id], path@),
                )
            },
            (r is Err && r->Err_0 == GuiError::DecodeError) ==> {
                &&& old(self).reader_model().dom().contains(id)
                &&& has_entry(old(self).reader_model()[id], path@)
                &&& !vstd::utf8::valid_utf8(entry_data(old(self).reader_model()[id], path@))
            },
    {
        match self.get_entry_as_binary(id, path) {
            Ok(bytes) => bytes_to_string(bytes),
            Err(e) => Err(e),
        }
    }

    /// List entry names: an empty pattern returns every entry name, in
    /// archive order; otherwise only the names the glob pattern matches,
    /// under the pinned options: case-sensitive, a literal separator
    /// only matches a separator, a literal leading dot only matches a
    /// leading dot (which separator characters count follows the host's
    /// path conventions).
    pub fn get_entry_names(&self, id: u64, pattern: &str) -> (r: Result<Vec<String>, GuiError>)
        ensures
            (r is Err && r->Err_0 == GuiError::HandleNotFound) <==> !self.reader_model(
            ).dom().contains(id),
            (r is Err && r->Err_0 == GuiError::InvalidInput) <==> (self.reader_model(
            ).dom().contains(id) && pattern@.len() > 0 && !glob_parses(pattern@)),
            r is Err ==> (r->Err_0 == GuiError::HandleNotFound || r->Err_0
                == GuiError::InvalidInput),
            r is Ok ==> r->Ok_0.deep_view() == (if pattern@.len() == 0 {
                entry_names(self.reader_model()[id])
            } else {
                matching_names(entry_names(self.reader_model()[id]), pattern@)
            }),
    {
        let archive = match self.reader.get(id) {
            Some(a) => a,
            None => {
                return Err(GuiError::HandleNotFound);
            },
        };
        let ghost es = archive_entries(self.readers()[id]);
        let names = zip_file_names(archive);
        proof {
            assert(names.deep_view() =~= entry_names(es));
        }
        if pattern.is_empty() {
            return Ok(names);
        }
        let compiled = match glob_new(pattern) {
            Ok(p) => p,
            Err(e) => {
                return Err(e);
            },
        };
        let n: usize = names.len();
        let mut out: Vec<String> = Vec::new();
        let mut i: usize = 0;
        proof {
            assert(names.deep_view().take(0) =~= Seq::<Seq<char>>::empty());
        }
        while i < n
            invariant
                n == names@.len(),
                0 <= i <= n,
                glob_source(compiled) == pattern@,
                out.deep_view() == matching_names(names.deep_view().take(i as int), pattern@),
            decreases n - i,
        {
            let ghost prefix = names.deep_view().take(i as int);
            if glob_match(&compiled, names[i].as_str(), true, true, true) {
                out.push(names[i].clone());
            }
            i = i + 1;
            proof {
                let next = names.deep_view().take(i as int);
                assert(next.drop_last() =~= prefix);
                assert(next.last() == names.deep_view()[i - 1]);
            }
        }
        proof {
            assert(names.deep_view().take(n as int) =~= names.deep_view());
            assert(names.deep_view() =~= entry_names(es));
        }
        Ok(out)
    }

    /// Store an open archive writer under a freshly minted identifier.
    fn register_writer(&mut self, writer: MemWriter) -> (r: u64)
        requires
            old(self).wf(),
            old(self).next_writer_id() < u64::MAX,
            distinct_names(writer_entries(writer)),
        ensures
            final(self).wf(),
            !old(self).writer_model().dom().contains(r),
            final(self).writer_model() == old(self).writer_model().insert(
                r,
                writer_entries(writer),
            ),
            final(self).reader_model() == old(self).reader_model(),
            final(self).reader_clean() == old(self).reader_clean(),
            final(self).writers() == old(self).writers().insert(r, writer),
            final(self).next_reader_id() == old(self).next_reader_id(),
            final(self).next_writer_id() == old(self).next_writer_id() + 1,
    {
        let id = self.writer.register(writer);
        proof {
            assert(final(self).writer_model() =~= old(self).writer_model().insert(
                id,
                writer_entries(writer),
            ));
            assert(final(self).reader_model() =~= old(self).reader_model());
            assert(final(self).reader_clean() =~= old(self).reader_clean());
        }
        id
    }

    /// Create a fresh, empty archive writer, store it, and return its
    /// identifier. The archive is assembled in memory; closing the
    /// writer finalizes it and hands the serialized bytes out.
    pub fn load_zip_writer(&mut self) -> (r: u64)
        requires
            old(self).wf(),
            old(self).next_writer_id() < u64::MAX,
        ensures
            final(self).wf(),
            !old(self).writer_model().dom().contains(r),
            final(self).writer_model() == old(self).writer_model().insert(
                r,
                Seq::<(Seq<char>, Seq<u8>)>::empty(),
            ),
            final(self).reader_model() == old(self).reader_model(),
            final(self).reader_clean() == old(self).reader_clean(),
            final(self).next_reader_id() == old(self).next_reader_id(),
            final(self).next_writer_id() == old(self).next_writer_id() + 1,
    {
        let w = zip_writer_new();
        self.register_writer(w)
    }

    /// Finalize the writer (committing the archive's central directory
    /// and trailer) and destroy it, returning the finished archive's
    /// bytes: a wellformed archive that parses back to exactly the
    /// entries written. Finalizing into memory cannot fail, so success
    /// is owed for every live identifier; the identifier is free
    /// afterwards either way.
    pub fn free_writer(&mut self, id: u64) -> (r: Result<Vec<u8>, GuiError>)
        requires
            old(self).wf(),
        ensures
            final(self).wf(),
            final(self).reader_model() == old(self).reader_model(),
            final(self).reader_clean() == old(self).reader_clean(),
            final(self).writer_model() == old(self).writer_model().remove(id),
            final(self).next_reader_id() == old(self).next_reader_id(),
            final(self).next_writer_id() == old(self).next_writer_id(),
            r is Ok <==> old(self).writer_model().dom().contains(id),
            r is Err ==> r->Err_0 == GuiError::HandleNotFound,
            r is Ok ==> {
                &&& parsed_zip(r->Ok_0@) == Some(old(self).writer_model()[id])
                &&& wellformed_zip(r->Ok_0@)
                &&& distinct_names(old(self).writer_model()[id])
            },
    {
        match self.writer.remove(id) {
            None => {
                proof {
                    assert(final(self).writer_model() =~= old(self).writer_model().remove(id));
                    assert(final(self).reader_model() =~= old(self).reader_model());
                    assert(final(self).reader_clean() =~= old(self).reader_clean());
                    lemma_same_tables_keep_wf(*old(self), *self);
                }
                Err(GuiError::HandleNotFound)
            },
            Some(w) => {
                let res = zip_finish(w);
                proof {
                    assert(final(self).writer_model() =~= old(self).writer_model().remove(id));
                    assert(final(self).reader_model() =~= old(self).reader_model());
                    assert(final(self).reader_clean() =~= old(self).reader_clean());
                    assert forall|i: u64| #[trigger] self.writers().dom().contains(i)
                        implies distinct_names(writer_entries(self.writers()[i])) by {
                        assert(old(self).writers().dom().contains(i));
                        assert(self.writers()[i] == old(self).writers()[i]);
                    }
                    assert forall|i: u64| #[trigger] self.readers().dom().contains(i)
                        implies distinct_names(archive_entries(self.readers()[i])) by {
                        assert(old(self).readers().dom().contains(i));
                    }
                }
                res
            },
        }
    }

    /// Insert a directory entry; the stored name carries a trailing
    /// separator, appended if the given name lacks one. A live handle is
    /// owed success unless the name is already used (refused by the
    /// archive writer) or too long for the format's name-length field
    /// counting the separator (refused as invalid input).
    #[verifier::rlimit(50)]
    pub fn add_directory(&mut self, id: u64, path: &str) -> (r: Result<(), GuiError>)
        requires
            old(self).wf(),
        ensures
            final(self).wf(),
            final(self).reader_model() == old(self).reader_model(),
            final(self).reader_clean() == old(self).reader_clean(),
            final(self).next_reader_id() == old(self).next_reader_id(),
            final(self).next_writer_id() == old(self).next_writer_id(),
            (r is Err && r->Err_0 == GuiError::HandleNotFound) <==> !old(
                self,
            ).writer_model().dom().contains(id),
            (r is Err && r->Err_0 == GuiError::InvalidInput) <==> (old(
                self,
            ).writer_model().dom().contains(id) && !dir_name_fits(path@)),
            (r is Err && r->Err_0 == GuiError::ArchiveError) <==> (old(
                self,
            ).writer_model().dom().contains(id) && dir_name_fits(path@) && has_entry(
                old(self).writer_model()[id],
                dir_entry_name(path@),
            )),
            r is Ok <==> (old(self).writer_model().dom().contains(id) && dir_name_fits(path@)
                && !has_entry(old(self).writer_model()[id], dir_entry_name(path@))),
            r is Ok ==> final(self).writer_model() == old(self).writer_model().insert(
                id,
                old(self).writer_model()[id].push((dir_entry_name(path@), Seq::<u8>::empty())),
            ),
            r is Err ==> final(self).writer_model() == old(self).writer_model(),
    {
        match self.writer.remove(id) {
            None => {
                proof {
                    assert(final(self).writer_model() =~= old(self).writer_model());
                    assert(final(self).reader_model() =~= old(self).reader_model());
                    assert(final(self).reader_clean() =~= old(self).reader_clean());
                    lemma_same_tables_keep_wf(*old(self), *self);
                }
                Err(GuiError::HandleNotFound)
            },
            Some(mut w) => {
                let ghost old_es = writer_entries(old(self).writers()[id]);
                let name_len: usize = path.as_bytes().len();
                proof {
                    assert(path.spec_bytes() == vstd::utf8::encode_utf8(path@));
                }
                let res = if name_len > 65534 {
                    Err(GuiError::InvalidInput)
                } else {
                    zip_add_directory(&mut w, path)
                };
                self.writer.put_back(id, w);
                proof {
                    assert(final(self).reader_model() =~= old(self).reader_model());
                    assert(final(self).reader_clean() =~= old(self).reader_clean());
                    if res is Ok {
                        lemma_push_entry(old_es, dir_entry_name(path@), Seq::<u8>::empty());
                        assert(final(self).writer_model() =~= old(self).writer_model().insert(
                            id,
                            old_es.push((dir_entry_name(path@), Seq::<u8>::empty())),
                        ));
                    } else {
                        assert(final(self).writer_model() =~= old(self).writer_model());
                    }
                    assert forall|i: u64| #[trigger] self.writers().dom().contains(i)
                        implies distinct_names(writer_entries(self.writers()[i])) by {
                        assert(old(self).writers().dom().contains(i));
                        if i != id {
                            assert(self.writers()[i] == old(self).writers()[i]);
                        }
                    }
                    assert forall|i: u64| #[trigger] self.readers().dom().contains(i)
                        implies distinct_names(archive_entries(self.readers()[i])) by {
                        assert(old(self).readers().dom().contains(i));
                    }
                    assert(self.wf());
                }
                res
            },
        }
    }

    /// Stream bytes into a new file entry. A live handle is owed
    /// success unless the name is already used (refused by the archive
    /// writer), the name is too long for the format's name-length field
    /// (refused as invalid input), or the content is too large for the
    /// format's plain size fields (refused before anything is written).
    /// On every failure the archive is left exactly as it was, and it
    /// always stays closeable.
    #[verifier::rlimit(50)]
    pub fn write_entry_from_binary(&mut self, id: u64, path: &str, binary: &[u8]) -> (r: Result<
        (),
        GuiError,
    >)
        requires
            old(self).wf(),
        ensures
            final(self).wf(),
            final(self).reader_model() == old(self).reader_model(),
            final(self).reader_clean() == old(self).reader_clean(),
            final(self).next_reader_id() == old(self).next_reader_id(),
            final(self).next_writer_id() == old(self).next_writer_id(),
            (r is Err && r->Err_0 == GuiError::HandleNotFound) <==> !old(
                self,
            ).writer_model().dom().contains(id),
            (r is Err && r->Err_0 == GuiError::InvalidInput) <==> (old(
                self,
            ).writer_model().dom().contains(id) && !entry_name_fits(path@)),
            (r is Err && r->Err_0 == GuiError::IoError) <==> (old(
                self,
            ).writer_model().dom().contains(id) && entry_name_fits(path@) && !entry_data_fits(
                binary@,
            )),
            (r is Err && r->Err_0 == GuiError::ArchiveError) <==> (old(
                self,
            ).writer_model().dom().contains(id) && entry_name_fits(path@) && entry_data_fits(
                binary@,
            ) && has_entry(old(self).writer_model()[id], path@)),
            r is Ok <==> (old(self).writer_model().dom().contains(id) && entry_name_fits(path@)
                && entry_data_fits(binary@) && !has_entry(old(self).writer_model()[id], path@)),
            r is Ok ==> final(self).writer_model() == old(self).writer_model().insert(
                id,
                old(self).writer_model()[id].push((path@, binary@)),
            ),
            r is Err ==> final(self).writer_model() == old(self).writer_model(),
    {
        match self.writer.remove(id) {
            None => {
                proof {
                    assert(final(self).writer_model() =~= old(self).writer_model());
                    assert(final(self).reader_model() =~= old(self).reader_model());
                    assert(final(self).reader_clean() =~= old(self).reader_clean());
                    lemma_same_tables_keep_wf(*old(self), *self);
                }
                Err(GuiError::HandleNotFound)
            },
            Some(mut w) => {
                let ghost old_es = writer_entries(old(self).writers()[id]);
                let name_len: usize = path.as_bytes().len();
                proof {
                    assert(path.spec_bytes() == vstd::utf8::encode_utf8(path@));
                }
                let res = if name_len > 65535 {
                    Err(GuiError::InvalidInput)
                } else if binary.len() > 0xFFF0_0000 {
                    Err(GuiError::IoError)
                } else {
                    match zip_start_file(&mut w, path) {
                        Ok(()) => {
                            proof {
                                lemma_push_entry(old_es, path@, Seq::<u8>::empty());
                                assert(Seq::<u8>::empty() + binary@ =~= binary@);
                            }
                            let wr = zip_write_data(&mut w, binary);
                            proof {
                                let started = old_es.push((path@, Seq::<u8>::empty()));
                                assert(writer_entries(w) =~~= old_es.push((path@, binary@))) by {
                                    assert(Seq::<u8>::empty() + binary@ =~= binary@);
                                    assert(started.update(
                                        started.len() - 1,
                                        (path@, Seq::<u8>::empty() + binary@),
                                    ) =~~= old_es.push((path@, binary@)));
                                }
                                lemma_push_entry(old_es, path@, binary@);
                            }
                            wr
                        },
                        Err(e) => Err(e),
                    }
                };
                self.writer.put_back(id, w);
                proof {
                    assert(final(self).reader_model() =~= old(self).reader_model());
                    assert(final(self).reader_clean() =~= old(self).reader_clean());
                    if res is Ok {
                        assert(final(self).writer_model() =~= old(self).writer_model().insert(
                            id,
                            old_es.push((path@, binary@)),
                        ));
                    } else {
                        assert(final(self).writer_model() =~= old(self).writer_model());
                    }
                    assert forall|i: u64| #[trigger] self.writers().dom().contains(i)
                        implies distinct_names(writer_entries(self.writers()[i])) by {
                        assert(old(self).writers().dom().contains(i));
                        if i != id {
                            assert(self.writers()[i] == old(self).writers()[i]);
                        }
                    }
                    assert forall|i: u64| #[trigger] self.readers().dom().contains(i)
                        implies distinct_names(archive_entries(self.readers()[i])) by {
                        assert(old(self).readers().dom().contains(i));
                    }
                    assert(self.wf());
                }
                res
            },
        }
    }

    /// Stream text into a new file entry: the text is encoded as UTF-8
    /// bytes and delegated to the binary path, so a live handle is owed
    /// success under the same name and size bounds.
    pub fn write_entry_from_text(&mut self, id: u64, path: &str, text: &str) -> (r: Result<
        (),
        GuiError,
    >)
        requires
            old(self).wf(),
        ensures
            final(self).wf(),
            final(self).reader_model() == old(self).reader_model(),
            final(self).reader_clean() == old(self).reader_clean(),
            final(self).next_reader_id() == old(self).next_reader_id(),
            final(self).next_writer_id() == old(self).next_writer_id(),
            (r is Err && r->Err_0 == GuiError::HandleNotFound) <==> !old(
                self,
            ).writer_model().dom().contains(id),
            (r is Err && r->Err_0 == GuiError::InvalidInput) <==> (old(
                self,
            ).writer_model().dom().contains(id) && !entry_name_fits(path@)),
            (r is Err && r->Err_0 == GuiError::IoError) <==> (old(
                self,
            ).writer_model().dom().contains(id) && entry_name_fits(path@) && !entry_data_fits(
                vstd::utf8::encode_utf8(text@),
            )),
            (r is Err && r->Err_0 == GuiError::ArchiveError) <==> (old(
                self,
            ).writer_model().dom().contains(id) && entry_name_fits(path@) && entry_data_fits(
                vstd::utf8::encode_utf8(text@),
            ) && has_entry(old(self).writer_model()[id], path@)),
            r is Ok <==> (old(self).writer_model().dom().contains(id) && entry_name_fits(path@)
                && entry_data_fits(vstd::utf8::encode_utf8(text@)) && !has_entry(
                old(self).writer_model()[id],
                path@,
            )),
            r is Ok ==> final(self).writer_model() == old(self).writer_model().insert(
                id,
                old(self).writer_model()[id].push((path@, vstd::utf8::encode_utf8(text@))),
            ),
            r is Err ==> final(self).writer_model() == old(self).writer_model(),
    {
        self.write_entry_from_binary(id, path, text.as_bytes())
    }
}


/// Law: a freed identifier is gone. Freeing removes the identifier from
/// the relevant namespace's model, and every per-resource operation
/// reports `HandleNotFound` exactly on identifiers outside that model,
/// so a close followed by any lookup of the same identifier fails with
/// `HandleNotFound`.
pub proof fn lemma_close_then_lookup_fails(model: Map<u64, EntrySeq>, id: u64)
    ensures
        !model.remove(id).dom().contains(id),
{
}

/// Law (round trip): an entry written under a fresh name and committed
/// by finalize-close is recovered byte-for-byte, for arbitrary content
/// including empty and non-UTF-8 data: the finished bytes parse to the
/// written entries, where the name carries exactly the written data.
pub proof fn lemma_round_trip(entries: EntrySeq, name: Seq<char>, data: Seq<u8>, bytes: Seq<u8>)
    requires
        distinct_names(entries),
        !has_entry(entries, name),
        parsed_zip(bytes) == Some(entries.push((name, data))),
    ensures
        parsed_zip(bytes) is Some,
        distinct_names(parsed_zip(bytes)->Some_0),
        has_entry(parsed_zip(bytes)->Some_0, name),
        entry_data(parsed_zip(bytes)->Some_0, name) == data,
{
    lemma_push_entry(entries, name, data);
}


/// Law (text round trip): text stored through the text path is encoded
/// as UTF-8, and reading the entry back as text recovers exactly the
/// original characters.
pub proof fn lemma_text_round_trip(
    entries: EntrySeq,
    name: Seq<char>,
    text: Seq<char>,
    bytes: Seq<u8>,
)
    requires
        distinct_names(entries),
        !has_entry(entries, name),
        parsed_zip(bytes) == Some(entries.push((name, vstd::utf8::encode_utf8(text)))),
    ensures
        has_entry(parsed_zip(bytes)->Some_0, name),
        vstd::utf8::valid_utf8(entry_data(parsed_zip(bytes)->Some_0, name)),
        vstd::utf8::decode_utf8(entry_data(parsed_zip(bytes)->Some_0, name)) == text,
{
    lemma_push_entry(entries, name, vstd::utf8::encode_utf8(text));
    vstd::utf8::encode_utf8_valid_utf8(text);
    vstd::utf8::encode_utf8_decode_utf8(text);
}

/// Law: an empty pattern filters nothing out: `get_entry_names` with an
/// empty pattern promises every entry name, and with a pattern that
/// matches no name the filtered sequence is empty.
pub proof fn lemma_unmatched_pattern_lists_nothing(names: Seq<Seq<char>>, pattern: Seq<char>)
    requires
        forall|n: Seq<char>| !glob_matches(pattern, n, true, true, true),
    ensures
        matching_names(names, pattern) == Seq::<Seq<char>>::empty(),
    decreases names.len(),
{
    if names.len() > 0 {
        lemma_unmatched_pattern_lists_nothing(names.drop_last(), pattern);
    }
}

} // verus!
