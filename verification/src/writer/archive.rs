//! The ZIP container of an OFD package, written with the `zip` crate.
//!
//! A writer is seen through `zip_entries`: the files it has been given, in
//! order, each with its name, its compression and the data handed to it
//! (one element per `write_all`). The archive bytes it finally yields are
//! named by `zip_archive` as a function of that list.

use vstd::prelude::*;
use std::io::{Cursor, Write};
use zip::ZipWriter;
use zip::result::ZipError;

verus! {

/// A `zip::ZipWriter` writing into an in-memory buffer, seen only through
/// `zip_entries` and `zip_writing`.
#[verifier::external_body]
pub struct ArchiveWriter {
    inner: ZipWriter<Cursor<Vec<u8>>>,
}

#[verifier::external_type_specification]
#[verifier::external_body]
pub struct ExZipError(ZipError);

#[verifier::external_type_specification]
#[verifier::external_body]
pub struct ExIoError(std::io::Error);

/// How a file is stored in the archive.
#[derive(Debug, Clone, Copy, PartialEq, Eq, Structural)]
pub enum Compression {
    Stored,
    Deflated,
}

/// The files a ZIP writer has been given, in order: name, compression, and
/// the data of each `write_all` on that file.
pub uninterp spec fn zip_entries(w: ArchiveWriter) -> Seq<(Seq<char>, Compression, Seq<Seq<u8>>)>;

/// Whether the writer has a file open for writing: the file started last,
/// which further data goes to.
pub uninterp spec fn zip_writing(w: ArchiveWriter) -> bool;

/// The bytes of the finished archive holding the given files.
pub uninterp spec fn zip_archive(entries: Seq<(Seq<char>, Compression, Seq<Seq<u8>>)>) -> Seq<u8>;

/// Most bytes a file may hold, before and after compression: `zip` refuses
/// more unless the large-file option is set, which it is not here.
pub const MAX_ENTRY_BYTES: u64 = 0xFFFF_FFFF;

/// Total length of the data written to a file.
pub open spec fn data_len(chunks: Seq<Seq<u8>>) -> nat
    decreases chunks.len(),
{
    if chunks.len() == 0 {
        0
    } else {
        data_len(chunks.drop_last()) + chunks.last().len()
    }
}

/// The data written to a file, in one piece.
pub open spec fn joined(chunks: Seq<Seq<u8>>) -> Seq<u8>
    decreases chunks.len(),
{
    if chunks.len() == 0 {
        seq![]
    } else {
        joined(chunks.drop_last()) + chunks.last()
    }
}

/// Length of the deflate stream that `zip` writes for a file holding
/// `data`: flate2's `DeflateEncoder` (miniz_oxide backend) at zip's default
/// level, finished. The encoder parses its input only once its look-ahead
/// is full, so the stream depends on the data and not on how it was split
/// across writes.
pub uninterp spec fn deflated_len(data: Seq<u8>) -> nat;

/// Bytes a file takes in the archive after compression.
pub open spec fn packed_len(e: (Seq<char>, Compression, Seq<Seq<u8>>)) -> nat {
    match e.1 {
        Compression::Stored => data_len(e.2),
        Compression::Deflated => deflated_len(joined(e.2)),
    }
}

/// Whether a file is within `MAX_ENTRY_BYTES`, before and after compression.
pub open spec fn entry_fits(e: (Seq<char>, Compression, Seq<Seq<u8>>)) -> bool {
    data_len(e.2) <= MAX_ENTRY_BYTES && packed_len(e) <= MAX_ENTRY_BYTES
}

/// Whether the last file of `entries` (if any) fits.
pub open spec fn last_fits(entries: Seq<(Seq<char>, Compression, Seq<Seq<u8>>)>) -> bool {
    entries.len() == 0 || entry_fits(entries.last())
}

/// Whether no file of `entries` has the name `name`.
pub open spec fn name_is_new(entries: Seq<(Seq<char>, Compression, Seq<Seq<u8>>)>, name: Seq<char>) -> bool {
    forall|k: int| 0 <= k < entries.len() ==> #[trigger] entries[k].0 != name
}

/// `ZipWriter::new` over an empty in-memory buffer: a writer that holds no
/// file yet and has none open.
#[verifier::external_body]
pub fn zip_writer_new() -> (w: ArchiveWriter)
    ensures
        zip_entries(w) == Seq::<(Seq<char>, Compression, Seq<Seq<u8>>)>::empty(),
        !zip_writing(w),
{
    ArchiveWriter { inner: ZipWriter::new(Cursor::new(Vec::new())) }
}

/// `ZipWriter::start_file` with default options and the given compression.
/// It first finishes the open file, if any; that fails only when the file
/// exceeds `MAX_ENTRY_BYTES` after compression (`update_local_file_header`).
/// It then fails when the name is already in the archive
/// (`insert_file_data`); writing headers into the in-memory buffer does not
/// fail. When it succeeds, the writer holds one more file,
/// with that name and no data yet, open for writing. What the writer holds
/// after a failure is left unsaid. A name of more than `0xFFFF` bytes makes
/// `zip` panic (`local_block`), so names are limited to `0x3FFF` characters
/// (at most four bytes each).
#[verifier::external_body]
pub fn zip_start_file(w: &mut ArchiveWriter, name: &str, method: Compression) -> (r: Result<(), ZipError>)
    requires
        name@.len() <= 0x3FFF,
    ensures
        r is Ok ==> zip_entries(*final(w)) == zip_entries(*old(w)).push((name@, method, Seq::<Seq<u8>>::empty())),
        r is Ok ==> zip_writing(*final(w)),
        name_is_new(zip_entries(*old(w)), name@) && (zip_entries(*old(w)).len() == 0 || ({
            let last = zip_entries(*old(w)).last();
            &&& data_len(last.2) <= MAX_ENTRY_BYTES
            &&& (last.1 == Compression::Stored || deflated_len(joined(last.2)) <= MAX_ENTRY_BYTES)
        })) ==> r is Ok,
{
    let m = match method {
        Compression::Stored => zip::CompressionMethod::Stored,
        Compression::Deflated => zip::CompressionMethod::Deflated,
    };
    w.inner.start_file(name, zip::write::SimpleFileOptions::default().compression_method(m))
}

/// `Write::write_all` on a ZIP writer: when it succeeds with data, the data
/// goes to the open file; with empty data nothing is written (std's
/// `write_all` makes no call). Writing data fails when no file is open, or
/// when the open file would exceed `MAX_ENTRY_BYTES` before compression;
/// the deflate encoder always takes some of the data it is given, so
/// `write_all` does not stop short. What the writer holds after a failure is left unsaid.
#[verifier::external_body]
pub fn zip_write_all(w: &mut ArchiveWriter, data: &[u8]) -> (r: Result<(), std::io::Error>)
    ensures
        r is Ok && data@.len() == 0 ==> zip_entries(*final(w)) == zip_entries(*old(w))
            && zip_writing(*final(w)) == zip_writing(*old(w)),
        r is Ok && data@.len() > 0 ==> {
            let old_entries = zip_entries(*old(w));
            let last = old_entries.last();
            &&& old_entries.len() > 0
            &&& zip_writing(*final(w))
            &&& zip_entries(*final(w)) == old_entries.update(
                old_entries.len() - 1,
                (last.0, last.1, last.2.push(data@)),
            )
        },
        zip_writing(*old(w)) && zip_entries(*old(w)).len() > 0 && data_len(
            zip_entries(*old(w)).last().2,
        ) + data@.len() <= MAX_ENTRY_BYTES ==> r is Ok,
{
    w.inner.write_all(data)
}

/// `ZipWriter::finish`, returning the buffer: the archive bytes are those
/// named by `zip_archive` for the files the writer holds. It finishes the
/// open file, which fails only when that file exceeds `MAX_ENTRY_BYTES`
/// after compression, then writes the central directory (in ZIP64 form
/// where sizes or counts call for it) into the in-memory buffer, which does
/// not fail.
#[verifier::external_body]
pub fn zip_finish(w: ArchiveWriter) -> (r: Result<Vec<u8>, ZipError>)
    ensures
        r matches Ok(bytes) ==> bytes@ == zip_archive(zip_entries(w)),
        zip_entries(w).len() == 0 || ({
            let last = zip_entries(w).last();
            &&& data_len(last.2) <= MAX_ENTRY_BYTES
            &&& (last.1 == Compression::Stored || deflated_len(joined(last.2)) <= MAX_ENTRY_BYTES)
        }) ==> r is Ok,
{
    match w.inner.finish() {
        Ok(cursor) => Ok(cursor.into_inner()),
        Err(e) => Err(e),
    }
}

} // verus!
