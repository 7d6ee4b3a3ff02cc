//! The trusted boundary around the `zip` crate. Verified code models the
//! writer as the sequence of entries written so far — `zip_entries` — and
//! drives it through the wrappers below; every wrapper pins the archive to
//! stored (uncompressed) members with a fixed timestamp, so the bytes
//! `finish` returns are a function of the entries alone, named
//! `zip_encoding`.

use vstd::prelude::*;
use vstd::utf8::valid_utf8;
use std::io::Write;

verus! {

/// The model of one archive member: its full path, whether it is a
/// directory entry, and its bytes.
pub struct ZipEntry {
    pub path: Seq<u8>,
    pub is_dir: bool,
    pub data: Seq<u8>,
}

/// An in-memory archive writer: a `zip::ZipWriter` over a byte buffer.
/// The type is opaque to the verifier; everything known about a value is
/// phrased over `zip_entries`.
#[verifier::external_body]
pub struct ArchiveWriter {
    inner: zip::ZipWriter<std::io::Cursor<Vec<u8>>>,
}

/// The members written into an archive writer so far, in order.
pub uninterp spec fn zip_entries(w: ArchiveWriter) -> Seq<ZipEntry>;

/// The bytes of the finished archive holding exactly `entries`, stored
/// uncompressed with a fixed timestamp. The bytes depend on the entries
/// and their order alone; the "made by" system byte of the headers is a
/// compile-time constant of the target, so the function is fixed per
/// compiled program.
pub uninterp spec fn zip_encoding(entries: Seq<ZipEntry>) -> Seq<u8>;

/// Every path of a member sequence differs from every other: the one way
/// the writer refuses a fresh member of an acceptable name.
pub open spec fn entry_paths_distinct(es: Seq<ZipEntry>) -> bool {
    forall|i: int, j: int| 0 <= i < j < es.len() ==> es[i].path != es[j].path
}

/// Every path of a member sequence is valid UTF-8.
pub open spec fn entry_paths_utf8(es: Seq<ZipEntry>) -> bool {
    forall|i: int| 0 <= i < es.len() ==> valid_utf8(#[trigger] es[i].path)
}

/// Every path of a member sequence fits the format's 16-bit name-length
/// field.
pub open spec fn entry_paths_short(es: Seq<ZipEntry>) -> bool {
    forall|i: int| 0 <= i < es.len() ==> (#[trigger] es[i].path).len() < 65536
}

/// No member's bytes cross the stored-size threshold beyond which the
/// writer demands the large-file option.
pub open spec fn entry_data_small(es: Seq<ZipEntry>) -> bool {
    forall|i: int| 0 <= i < es.len() ==> (#[trigger] es[i].data).len() <= 0xffff_ffff
}

/// A member sequence the writer accepts outright: distinct, valid, short
/// names and data below the stored-size threshold.
pub open spec fn entries_writable(es: Seq<ZipEntry>) -> bool {
    &&& entry_paths_distinct(es)
    &&& entry_paths_utf8(es)
    &&& entry_paths_short(es)
    &&& entry_data_small(es)
}

/// Relies on zip::ZipWriter::new: a writer over a fresh in-memory buffer
/// holds no entries.
#[verifier::external_body]
pub fn zip_writer_new() -> (w: ArchiveWriter)
    ensures
        zip_entries(w) == Seq::<ZipEntry>::empty(),
{
    ArchiveWriter { inner: zip::ZipWriter::new(std::io::Cursor::new(Vec::new())) }
}

/// Relies on zip::ZipWriter::add_directory: a name already ending in a
/// slash is taken as it is, and on success one directory entry of that
/// name is appended, stored with the fixed default timestamp. With these
/// options and an in-memory buffer the call fails only on a duplicate
/// name or a name that is not valid UTF-8 or does not fit the 16-bit
/// name-length field, so a fresh, valid, short name succeeds.
#[verifier::external_body]
pub fn zip_add_directory(w: &mut ArchiveWriter, path: &[u8]) -> (r:
    Result<(), ()>)
    requires
        path@.len() > 0,
        path@.last() == 47,
    ensures
        r is Ok ==> zip_entries(*final(w)) == zip_entries(*old(w)).push(
            (ZipEntry { path: path@, is_dir: true, data: Seq::empty() }),
        ),
        (valid_utf8(path@) && path@.len() < 65536 && (forall|i: int|
            0 <= i < zip_entries(*old(w)).len() ==> (#[trigger] zip_entries(*old(w))[i]).path
                != path@)) ==> r is Ok,
{
    let opts: zip::write::SimpleFileOptions = zip::write::SimpleFileOptions::default()
        .compression_method(zip::CompressionMethod::Stored)
        .last_modified_time(zip::DateTime::default());
    let name = match std::str::from_utf8(path) {
        Ok(s) => s,
        Err(_) => return Err(()),
    };
    w.inner.add_directory(name, opts).map_err(|_| ())
}

/// Relies on zip::ZipWriter::start_file: on success one file entry of the
/// given name is appended, empty until bytes are written, stored
/// uncompressed with the fixed default timestamp. With these options and
/// an in-memory buffer the call fails only on a duplicate name or a name
/// that is not valid UTF-8 or does not fit the 16-bit name-length field,
/// so a fresh, valid, short name succeeds.
#[verifier::external_body]
pub fn zip_start_file(w: &mut ArchiveWriter, path: &[u8]) -> (r: Result<
    (),
    (),
>)
    ensures
        r is Ok ==> zip_entries(*final(w)) == zip_entries(*old(w)).push(
            (ZipEntry { path: path@, is_dir: false, data: Seq::empty() }),
        ),
        (valid_utf8(path@) && path@.len() < 65536 && (forall|i: int|
            0 <= i < zip_entries(*old(w)).len() ==> (#[trigger] zip_entries(*old(w))[i]).path
                != path@)) ==> r is Ok,
{
    let opts: zip::write::SimpleFileOptions = zip::write::SimpleFileOptions::default()
        .compression_method(zip::CompressionMethod::Stored)
        .last_modified_time(zip::DateTime::default());
    let name = match std::str::from_utf8(path) {
        Ok(s) => s,
        Err(_) => return Err(()),
    };
    w.inner.start_file(name, opts).map_err(|_| ())
}

/// Relies on the Write impl of zip::ZipWriter: bytes written after
/// start_file are appended, uncompressed, to the file entry started last.
/// Writing into the in-memory buffer fails only when the entry's bytes
/// cross the stored-size threshold without the large-file option, so a
/// write that keeps the entry at or below it succeeds.
#[verifier::external_body]
pub fn zip_write_all(w: &mut ArchiveWriter, buf: &[u8]) -> (r: Result<
    (),
    (),
>)
    requires
        zip_entries(*old(w)).len() > 0,
        !zip_entries(*old(w)).last().is_dir,
    ensures
        r is Ok ==> zip_entries(*final(w)) == zip_entries(*old(w)).update(
            zip_entries(*old(w)).len() - 1,
            (ZipEntry {
                path: zip_entries(*old(w)).last().path,
                is_dir: false,
                data: zip_entries(*old(w)).last().data + buf@,
            }),
        ),
        zip_entries(*old(w)).last().data.len() + buf@.len() <= 0xffff_ffff ==> r is Ok,
{
    w.inner.write_all(buf).map_err(|_| ())
}

/// Relies on zip::ZipWriter::finish: closing the writer yields the whole
/// archive, whose bytes depend on the written entries and their order
/// alone. Finishing an in-memory buffer cannot fail: the headers and the
/// central directory are written into the buffer, and oversized counts
/// and offsets get zip64 records rather than errors.
#[verifier::external_body]
pub fn zip_finish(w: ArchiveWriter) -> (r: Result<Vec<u8>, ()>)
    ensures
        r is Ok,
        r is Ok ==> r->Ok_0@ == zip_encoding(zip_entries(w)),
{
    match w.inner.finish() {
        Ok(c) => Ok(c.into_inner()),
        Err(_) => Err(()),
    }
}

} // verus!
