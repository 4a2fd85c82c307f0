//! The flat archive-registry interface: free functions over the shared
//! registry, one per operation, keyed by reader identifier.

use vstd::prelude::*;

use crate::archive::{entry_data, has_entry, parsed_zip, wellformed_zip};
use crate::errors::GuiError;
use crate::vault::ZipCollectionsState;

verus! {

/// Open a reader over an archive's serialized bytes and return its
/// identifier; a container whose structure cannot be parsed is
/// `CorruptArchive`.
pub fn load_zip(state: &mut ZipCollectionsState, source: Vec<u8>) -> (r: Result<u64, GuiError>)
    requires
        old(state).wf(),
        old(state).next_reader_id() < u64::MAX,
    ensures
        final(state).wf(),
        final(state).writer_model() == old(state).writer_model(),
        final(state).next_writer_id() == old(state).next_writer_id(),
        r is Ok <==> parsed_zip(source@) is Some,
        r is Err ==> {
            &&& r->Err_0 == GuiError::CorruptArchive
            &&& final(state).reader_model() == old(state).reader_model()
            &&& final(state).reader_clean() == old(state).reader_clean()
            &&& final(state).next_reader_id() == old(state).next_reader_id()
        },
        r is Ok ==> {
            &&& !old(state).reader_model().dom().contains(r->Ok_0)
            &&& final(state).reader_model() == old(state).reader_model().insert(
                r->Ok_0,
                parsed_zip(source@)->Some_0,
            )
            &&& final(state).reader_clean() == old(state).reader_clean().insert(
                r->Ok_0,
                wellformed_zip(source@),
            )
            &&& final(state).next_reader_id() == old(state).next_reader_id() + 1
        },
{
    state.load_zip_reader(source)
}

/// Whether an entry with exactly this name exists in the reader's
/// archive; absence of the entry is `false`, not a failure.
pub fn exist_zip_entry(state: &ZipCollectionsState, id: u64, path: &str) -> (r: Result<
    bool,
    GuiError,
>)
    ensures
        r is Err <==> !state.reader_model().dom().contains(id),
        r is Err ==> r->Err_0 == GuiError::HandleNotFound,
        r is Ok ==> r->Ok_0 == has_entry(state.reader_model()[id], path@),
{
    state.exist(id, path)
}

/// Read an entry's full content as bytes; a present entry of a clean
/// archive is owed success.
pub fn get_zip_entry_as_binary(state: &mut ZipCollectionsState, id: u64, path: &str) -> (r: Result<
    Vec<u8>,
    GuiError,
>)
    requires
        old(state).wf(),
    ensures
        final(state).wf(),
        final(state).reader_model() == old(state).reader_model(),
        final(state).reader_clean() == old(state).reader_clean(),
        final(state).writer_model() == old(state).writer_model(),
        final(state).next_reader_id() == old(state).next_reader_id(),
        final(state).next_writer_id() == old(state).next_writer_id(),
        (r is Err && r->Err_0 == GuiError::HandleNotFound) <==> !old(
            state,
        ).reader_model().dom().contains(id),
        (r is Err && r->Err_0 == GuiError::EntryNotFound) <==> (old(
            state,
        ).reader_model().dom().contains(id) && !has_entry(old(state).reader_model()[id], path@)),
        (old(state).reader_model().dom().contains(id) && old(state).reader_clean()[id]
            && has_entry(old(state).reader_model()[id], path@)) ==> r is Ok,
        r is Ok ==> r->Ok_0@ == entry_data(old(state).reader_model()[id], path@),
{
    state.get_entry_as_binary(id, path)
}

/// Read an entry's full content as UTF-8 text; on a clean archive a
/// present text entry is owed success, and a present entry that is not
/// valid UTF-8 is owed `DecodeError`.
pub fn get_zip_entry_as_text(state: &mut ZipCollectionsState, id: u64, path: &str) -> (r: Result<
    String,
    GuiError,
>)
    requires
        old(state).wf(),
    ensures
        final(state).wf(),
        final(state).reader_model() == old(state).reader_model(),
        final(state).reader_clean() == old(state).reader_clean(),
        final(state).writer_model() == old(state).writer_model(),
        final(state).next_reader_id() == old(state).next_reader_id(),
        final(state).next_writer_id() == old(state).next_writer_id(),
        (r is Err && r->Err_0 == GuiError::HandleNotFound) <==> !old(
            state,
        ).reader_model().dom().contains(id),
        (r is Err && r->Err_0 == GuiError::EntryNotFound) <==> (old(
            state,
        ).reader_model().dom().contains(id) && !has_entry(old(state).reader_model()[id], path@)),
        (old(state).reader_model().dom().contains(id) && old(state).reader_clean()[id]
            && has_entry(old(state).reader_model()[id], path@) && vstd::utf8::valid_utf8(
            entry_data(old(state).reader_model()[id], path@),
        )) ==> r is Ok,
        (old(state).reader_model().dom().contains(id) && old(state).reader_clean()[id]
            && has_entry(old(state).reader_model()[id], path@) && !vstd::utf8::valid_utf8(
            entry_data(old(state).reader_model()[id], path@),
        )) ==> (r is Err && r->Err_0 == GuiError::DecodeError),
        r is Ok ==> r->Ok_0@ == vstd::utf8::decode_utf8(
            entry_data(old(state).reader_model()[id], path@),
        ),
{
    state.get_entry_as_text(id, path)
}

/// Destroy the reader under the identifier; afterwards the identifier
/// is no longer live, and a lookup of it fails with `HandleNotFound`.
pub fn close_zip(state: &mut ZipCollectionsState, id: u64) -> (r: Result<(), GuiError>)
    requires
        old(state).wf(),
    ensures
        final(state).wf(),
        r is Ok <==> old(state).reader_model().dom().contains(id),
        r is Err ==> r->Err_0 == GuiError::HandleNotFound,
        final(state).reader_model() == old(state).reader_model().remove(id),
        final(state).reader_clean() == old(state).reader_clean().remove(id),
        final(state).writer_model() == old(state).writer_model(),
        final(state).next_reader_id() == old(state).next_reader_id(),
        final(state).next_writer_id() == old(state).next_writer_id(),
{
    state.free_reader(id)
}

} // verus!
