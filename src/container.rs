//! The ZIP container, through the `zip` crate: writing stored entries and
//! reading entries back.
use vstd::prelude::*;
use vstd::utf8::encode_utf8;

use std::io::Cursor;
use std::io::Read;
use std::io::Write;
use zip::result::ZipError;
use zip::write::SimpleFileOptions;
use zip::{CompressionMethod, ZipArchive, ZipWriter};

verus! {

#[verifier::external_type_specification]
#[verifier::external_body]
#[verifier::reject_recursive_types(T)]
pub struct ExCursor<T>(Cursor<T>);

/// A ZIP writer over an in-memory buffer. The writer type's `Write + Seek`
/// bound cannot be declared to the verifier, so it is held here.
#[verifier::external_body]
pub struct ArchiveWriter {
    inner: ZipWriter<Cursor<Vec<u8>>>,
}

#[verifier::external_type_specification]
#[verifier::external_body]
#[verifier::reject_recursive_types(R)]
pub struct ExZipArchive<R>(ZipArchive<R>);

#[verifier::external_type_specification]
#[verifier::external_body]
pub struct ExZipError(ZipError);

/// How an entry's contents are stored in the archive.
#[derive(Debug, Clone, Copy, PartialEq, Eq, Structural)]
pub enum EntryCompression {
    /// Verbatim, without compression.
    Stored,
    /// Compressed with DEFLATE.
    Deflated,
}

/// The entries (name, contents) that a writer holds so far, in the order
/// they were started, each with the bytes written to it.
pub uninterp spec fn written_entries(w: ArchiveWriter) -> Seq<(Seq<char>, Seq<u8>)>;

/// The compression of each entry the writer holds, in the same order.
pub uninterp spec fn written_methods(w: ArchiveWriter) -> Seq<EntryCompression>;

/// Whether the writer has an entry open for writing.
pub uninterp spec fn entry_open(w: ArchiveWriter) -> bool;

/// The bytes of a ZIP archive of the entries, each with its compression,
/// and the writer's default metadata. Built without the `zip` crate's
/// `time` feature, every entry carries the fixed 1980-01-01 timestamp and a
/// Unix "made by" system, so the bytes depend on the entries alone.
pub uninterp spec fn zip_bytes(
    entries: Seq<(Seq<char>, Seq<u8>)>,
    methods: Seq<EntryCompression>,
) -> Seq<u8>;

/// The bytes that an opened archive reads from.
pub uninterp spec fn archive_source(a: ZipArchive<Cursor<Vec<u8>>>) -> Seq<u8>;

/// Whether the ZIP reader accepts the bytes as an archive.
pub uninterp spec fn zip_opens(data: Seq<u8>) -> bool;

/// The entries (name, contents) that the ZIP reader lists in the bytes, in
/// central directory order.
pub uninterp spec fn zip_listing(data: Seq<u8>) -> Seq<(Seq<char>, Seq<u8>)>;

/// Whether entry `i` of the archive in the bytes can be opened.
pub uninterp spec fn zip_entry_opens(data: Seq<u8>, i: int) -> bool;

/// Whether entry `i` of the archive in the bytes can be opened and read to
/// its end.
pub uninterp spec fn zip_entry_reads(data: Seq<u8>, i: int) -> bool;

/// The longest entry name, in UTF-8 bytes: the name length field holds 16
/// bits.
pub const MAX_NAME_BYTES: usize = 65535;

/// The largest entry, in bytes, without ZIP64 extensions.
pub const MAX_ENTRY_BYTES: u64 = 0xffff_ffff;

/// The names of the entries.
pub open spec fn entry_names(entries: Seq<(Seq<char>, Seq<u8>)>) -> Seq<Seq<char>> {
    entries.map_values(|e: (Seq<char>, Seq<u8>)| e.0)
}

/// The last entry, if any, is small enough for a writer without ZIP64
/// extensions.
pub open spec fn last_entry_fits(entries: Seq<(Seq<char>, Seq<u8>)>) -> bool {
    entries.len() > 0 ==> entries.last().1.len() <= MAX_ENTRY_BYTES
}

/// Every entry is stored without compression.
pub open spec fn all_stored(methods: Seq<EntryCompression>) -> bool {
    forall|i: int| 0 <= i < methods.len() ==> methods[i] == EntryCompression::Stored
}

/// Relies on `ZipWriter::new`: a new writer over an empty buffer holds no
/// entry and has none open.
#[verifier::external_body]
pub(crate) fn new_writer() -> (w: ArchiveWriter)
    ensures
        written_entries(w) == Seq::<(Seq<char>, Seq<u8>)>::empty(),
        written_methods(w) == Seq::<EntryCompression>::empty(),
        !entry_open(w),
{
    ArchiveWriter { inner: ZipWriter::new(Cursor::new(Vec::new())) }
}

/// Relies on `ZipWriter::start_file` with the given compression. It closes
/// the open entry, if any (which, for a stored entry, fails only past 4 GiB
/// without ZIP64), then refuses a name already present; on success a new,
/// empty entry of that name follows the others and is open for writing, on
/// failure none is open. The in-memory buffer never fails. The writer
/// panics on a name of 65,536 bytes or more.
#[verifier::external_body]
pub(crate) fn start_entry(
    w: &mut ArchiveWriter,
    name: &str,
    method: EntryCompression,
) -> (r: Result<(), ZipError>)
    requires
        encode_utf8(name@).len() <= MAX_NAME_BYTES,
        last_entry_fits(written_entries(*old(w))),
    ensures
        all_stored(written_methods(*old(w))) && method == EntryCompression::Stored ==> (r is Ok
            <==> !entry_names(written_entries(*old(w))).contains(name@)),
        r is Ok ==> {
            &&& written_entries(*final(w)) == written_entries(*old(w)).push(
                (name@, Seq::<u8>::empty()),
            )
            &&& written_methods(*final(w)) == written_methods(*old(w)).push(method)
            &&& entry_open(*final(w))
        },
        r is Err ==> !entry_open(*final(w)),
{
    let method = match method {
        EntryCompression::Stored => CompressionMethod::Stored,
        EntryCompression::Deflated => CompressionMethod::Deflated,
    };
    w.inner.start_file(name, SimpleFileOptions::default().compression_method(method))
}

/// Relies on `ZipWriter`'s `Write::write_all` on the open entry: the bytes
/// are appended to its contents. For a stored entry the write fails exactly
/// when the entry would pass 4 GiB without ZIP64 extensions; a failed write
/// drops the entry and leaves none open.
#[verifier::external_body]
pub(crate) fn write_entry_bytes(w: &mut ArchiveWriter, data: &[u8]) -> (r: Result<
    (),
    ZipError,
>)
    requires
        written_entries(*old(w)).len() > 0,
        written_methods(*old(w)).len() == written_entries(*old(w)).len(),
        entry_open(*old(w)),
    ensures
        written_methods(*old(w)).last() == EntryCompression::Stored ==> (r is Ok <==> written_entries(
            *old(w),
        ).last().1.len() + data@.len() <= MAX_ENTRY_BYTES),
        r is Ok ==> {
            &&& written_entries(*final(w)) == written_entries(*old(w)).update(
                written_entries(*old(w)).len() - 1,
                (
                    written_entries(*old(w)).last().0,
                    written_entries(*old(w)).last().1 + data@,
                ),
            )
            &&& written_methods(*final(w)) == written_methods(*old(w))
            &&& entry_open(*final(w))
        },
        r is Err ==> !entry_open(*final(w)),
{
    w.inner.write_all(data).map_err(ZipError::Io)
}

/// Relies on `ZipWriter::finish`: it closes the open entry (which, for a
/// stored entry, fails only past 4 GiB without ZIP64) and writes the
/// central directory to the in-memory buffer. The bytes start with `PK` (a
/// local file header, or the end-of-directory record of an empty archive).
/// The ZIP reader then opens the bytes and lists, opens and reads back
/// exactly the entries the writer holds.
#[verifier::external_body]
pub(crate) fn finish_writer(w: ArchiveWriter) -> (r: Result<Vec<u8>, ZipError>)
    ensures
        all_stored(written_methods(w)) && last_entry_fits(written_entries(w)) ==> r is Ok,
        r matches Ok(bytes) ==> {
            &&& bytes@ == zip_bytes(written_entries(w), written_methods(w))
            &&& bytes@.len() >= 2 && bytes@[0] == 0x50u8 && bytes@[1] == 0x4bu8
            &&& zip_opens(bytes@)
            &&& zip_listing(bytes@) == written_entries(w)
            &&& forall|i: int|
                0 <= i < written_entries(w).len() ==> zip_entry_opens(bytes@, i)
                    && zip_entry_reads(bytes@, i)
        },
{
    w.inner.finish().map(|c| c.into_inner())
}

/// Relies on `ZipArchive::new`: it succeeds exactly on bytes the reader
/// accepts, and the archive then reads from a copy of them.
#[verifier::external_body]
pub(crate) fn open_archive(data: &[u8]) -> (r: Result<ZipArchive<Cursor<Vec<u8>>>, ZipError>)
    ensures
        r is Ok <==> zip_opens(data@),
        r matches Ok(a) ==> archive_source(a) == data@,
{
    ZipArchive::new(Cursor::new(data.to_vec()))
}

/// Relies on `ZipArchive::len`: the number of entries.
#[verifier::external_body]
pub(crate) fn archive_len(a: &ZipArchive<Cursor<Vec<u8>>>) -> (r: usize)
    ensures
        r == zip_listing(archive_source(*a)).len(),
{
    a.len()
}

/// Relies on `ZipArchive::by_index` and `ZipFile::name`: the name of entry
/// `i`. Reading moves the underlying cursor only.
#[verifier::external_body]
pub(crate) fn entry_name(a: &mut ZipArchive<Cursor<Vec<u8>>>, i: usize) -> (r: Result<
    String,
    ZipError,
>)
    requires
        i < zip_listing(archive_source(*old(a))).len(),
    ensures
        archive_source(*final(a)) == archive_source(*old(a)),
        r is Ok <==> zip_entry_opens(archive_source(*old(a)), i as int),
        r matches Ok(name) ==> name@ == zip_listing(archive_source(*old(a)))[i as int].0,
{
    a.by_index(i).map(|f| f.name().to_string())
}

/// Relies on `ZipArchive::by_index` and `Read::read_to_end` on the entry:
/// the decompressed contents of entry `i`.
#[verifier::external_body]
pub(crate) fn entry_bytes(a: &mut ZipArchive<Cursor<Vec<u8>>>, i: usize) -> (r: Result<
    Vec<u8>,
    ZipError,
>)
    requires
        i < zip_listing(archive_source(*old(a))).len(),
    ensures
        archive_source(*final(a)) == archive_source(*old(a)),
        r is Ok <==> zip_entry_reads(archive_source(*old(a)), i as int),
        r matches Ok(bytes) ==> bytes@ == zip_listing(archive_source(*old(a)))[i as int].1,
{
    let mut file = a.by_index(i)?;
    let mut buffer = Vec::new();
    file.read_to_end(&mut buffer)?;
    Ok(buffer)
}

} // verus!
