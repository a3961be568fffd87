//! Image archives (CBZ/CBR): format sniffing, packing and unpacking.
use vstd::multiset::Multiset;
use vstd::prelude::*;
use vstd::utf8::encode_utf8;

use crate::container::{
    archive_len, archive_source, entry_bytes, entry_name, entry_names, finish_writer, new_writer,
    open_archive, start_entry, write_entry_bytes, written_entries, written_methods, zip_bytes,
    zip_entry_opens, zip_entry_reads, zip_listing, zip_opens, EntryCompression,
    MAX_ENTRY_BYTES, MAX_NAME_BYTES,
};
use crate::error::ConversionError;
use crate::naming::{has_image_extension, is_image_file, lower_of};
use crate::ordering::{
    lemma_name_le_antisymmetric, lemma_name_le_total, lemma_name_le_transitive, name_le, name_le_exec,
};

verus! {

broadcast use vstd::seq_lib::group_to_multiset_ensures, vstd::multiset::group_multiset_axioms;

/// `Rar!\x1a\x07\x00`: the signature of a RAR 4 archive.
pub open spec fn rar4_signature() -> Seq<u8> {
    seq![0x52u8, 0x61u8, 0x72u8, 0x21u8, 0x1au8, 0x07u8, 0x00u8]
}

/// `Rar!\x1a\x07\x01\x00`: the signature of a RAR 5 archive.
pub open spec fn rar5_signature() -> Seq<u8> {
    seq![0x52u8, 0x61u8, 0x72u8, 0x21u8, 0x1au8, 0x07u8, 0x01u8, 0x00u8]
}

pub open spec fn starts_with_bytes(data: Seq<u8>, prefix: Seq<u8>) -> bool {
    prefix.len() <= data.len() && data.subrange(0, prefix.len() as int) == prefix
}

pub open spec fn is_rar_spec(data: Seq<u8>) -> bool {
    starts_with_bytes(data, rar4_signature()) || starts_with_bytes(data, rar5_signature())
}

fn starts_with_signature(data: &[u8], sig: &[u8; 8], n: usize) -> (r: bool)
    requires
        n <= 8,
    ensures
        r == starts_with_bytes(data@, sig@.subrange(0, n as int)),
{
    if data.len() < n {
        return false;
    }
    let mut i: usize = 0;
    while i < n
        invariant
            n <= 8,
            n <= data@.len(),
            0 <= i <= n,
            forall|j: int| 0 <= j < i ==> data@[j] == sig@[j],
        decreases n - i,
    {
        if data[i] != sig[i] {
            assert(data@.subrange(0, n as int)[i as int] != sig@.subrange(0, n as int)[i as int]);
            return false;
        }
        i = i + 1;
    }
    assert(data@.subrange(0, n as int) =~= sig@.subrange(0, n as int));
    true
}

/// Whether the bytes start with a RAR signature (RAR 4: 7 bytes, RAR 5:
/// 8 bytes); anything else is taken for a ZIP archive.
pub fn is_rar_archive(data: &[u8]) -> (r: bool)
    ensures
        r == is_rar_spec(data@),
{
    let rar4: [u8; 8] = [0x52, 0x61, 0x72, 0x21, 0x1a, 0x07, 0x00, 0x00];
    let rar5: [u8; 8] = [0x52, 0x61, 0x72, 0x21, 0x1a, 0x07, 0x01, 0x00];
    assert(rar4@.subrange(0, 7) =~= rar4_signature());
    assert(rar5@.subrange(0, 8) =~= rar5_signature());
    starts_with_signature(data, &rar4, 7) || starts_with_signature(data, &rar5, 8)
}

/// The view of archive entries: (name, contents).
pub open spec fn entries_view(s: Seq<(String, Vec<u8>)>) -> Seq<(Seq<char>, Seq<u8>)> {
    s.map_values(|e: (String, Vec<u8>)| (e.0@, e.1@))
}

/// An archive entry whose name has an image extension, in any case.
pub open spec fn is_image_entry(e: (Seq<char>, Seq<u8>)) -> bool {
    has_image_extension(lower_of(e.0))
}

pub open spec fn image_entries(s: Seq<(Seq<char>, Seq<u8>)>) -> Seq<(Seq<char>, Seq<u8>)> {
    s.filter(|e: (Seq<char>, Seq<u8>)| is_image_entry(e))
}

pub open spec fn sorted_by_name(s: Seq<(Seq<char>, Seq<u8>)>) -> bool {
    forall|i: int, j: int| 0 <= i < j < s.len() ==> name_le(s[i].0, s[j].0)
}

/// `r` holds the image entries of `entries`, ordered by name: the page
/// order of an archive.
pub open spec fn is_page_order_of(
    r: Seq<(Seq<char>, Seq<u8>)>,
    entries: Seq<(Seq<char>, Seq<u8>)>,
) -> bool {
    &&& sorted_by_name(r)
    &&& r.to_multiset() == image_entries(entries).to_multiset()
}

/// Orders entries by name, ascending.
fn sort_by_name(entries: Vec<(String, Vec<u8>)>) -> (r: Vec<(String, Vec<u8>)>)
    ensures
        sorted_by_name(entries_view(r@)),
        entries_view(r@).to_multiset() == entries_view(entries@).to_multiset(),
{
    let ghost input = entries_view(entries@);
    let mut rest = entries;
    let mut out: Vec<(String, Vec<u8>)> = Vec::new();
    assert(entries_view(out@).to_multiset() =~= Multiset::empty());
    assert(entries_view(out@).to_multiset().add(entries_view(rest@).to_multiset()) =~= input.to_multiset());
    while rest.len() > 0
        invariant
            sorted_by_name(entries_view(out@)),
            forall|i: int, j: int|
                0 <= i < out@.len() && 0 <= j < rest@.len() ==> name_le(out@[i].0@, rest@[j].0@),
            entries_view(out@).to_multiset().add(entries_view(rest@).to_multiset())
                == input.to_multiset(),
        decreases rest@.len(),
    {
        let len = rest.len();
        let mut m: usize = 0;
        let mut k: usize = 1;
        proof {
            lemma_name_le_total(rest@[0].0@, rest@[0].0@);
        }
        while k < len
            invariant
                len == rest@.len(),
                0 <= m < len,
                1 <= k <= len,
                forall|j: int| 0 <= j < k ==> name_le(rest@[m as int].0@, rest@[j].0@),
            decreases len - k,
        {
            if !name_le_exec(rest[m].0.as_str(), rest[k].0.as_str()) {
                proof {
                    lemma_name_le_total(rest@[m as int].0@, rest@[k as int].0@);
                    assert forall|j: int| 0 <= j < k + 1 implies name_le(
                        rest@[k as int].0@,
                        rest@[j].0@,
                    ) by {
                        if j < k {
                            lemma_name_le_transitive(
                                rest@[k as int].0@,
                                rest@[m as int].0@,
                                rest@[j].0@,
                            );
                        } else {
                            lemma_name_le_total(rest@[k as int].0@, rest@[k as int].0@);
                        }
                    }
                }
                m = k;
            }
            k = k + 1;
        }
        let ghost old_rest = rest@;
        let ghost old_out = out@;
        let x = rest.remove(m);
        out.push(x);
        proof {
            assert(rest@ == old_rest.remove(m as int));
            assert(entries_view(rest@) =~= entries_view(old_rest).remove(m as int));
            assert(entries_view(out@) =~= entries_view(old_out).push((x.0@, x.1@)));
            assert(entries_view(old_rest)[m as int] == (x.0@, x.1@));
            assert(entries_view(old_rest).contains((x.0@, x.1@)));
            assert forall|i: int, j: int|
                0 <= i < out@.len() && 0 <= j < rest@.len() implies name_le(
                out@[i].0@,
                rest@[j].0@,
            ) by {
                let jj = if j < m {
                    j
                } else {
                    j + 1
                };
                assert(rest@[j] == old_rest[jj]);
                if i < old_out.len() {
                    assert(out@[i] == old_out[i]);
                }
            }
            assert forall|i: int, j: int| 0 <= i < j < out@.len() implies name_le(
                entries_view(out@)[i].0,
                entries_view(out@)[j].0,
            ) by {
                assert(out@[i] == old_out[i]);
                if j < old_out.len() {
                    assert(out@[j] == old_out[j]);
                } else {
                    assert(out@[j] == old_rest[m as int]);
                }
            }
            assert(entries_view(out@).to_multiset().add(entries_view(rest@).to_multiset())
                =~= entries_view(old_out).to_multiset().add(entries_view(old_rest).to_multiset()));
        }
    }
    proof {
        assert(entries_view(rest@).to_multiset().len() == 0);
        assert(entries_view(rest@).to_multiset() =~= Multiset::empty());
        assert(entries_view(out@).to_multiset() =~= input.to_multiset());
    }
    out
}

/// Keeps the image entries and orders them by name, ascending: archive
/// producers name files so that this order is the reading order.
pub fn order_image_entries(entries: Vec<(String, Vec<u8>)>) -> (r: Vec<(String, Vec<u8>)>)
    ensures
        is_page_order_of(entries_view(r@), entries_view(entries@)),
{
    let ghost input = entries@;
    let ghost pred = |e: (Seq<char>, Seq<u8>)| is_image_entry(e);
    let mut rest = entries;
    let mut kept: Vec<(String, Vec<u8>)> = Vec::new();
    let n = rest.len();
    let mut i: usize = 0;
    while i < n
        invariant
            n == input.len(),
            0 <= i <= n,
            rest@ == input.subrange(i as int, n as int),
            pred == (|e: (Seq<char>, Seq<u8>)| is_image_entry(e)),
            entries_view(kept@) == entries_view(input.take(i as int)).filter(pred),
        decreases n - i,
    {
        let e = rest.remove(0);
        assert(e == input[i as int]);
        assert(rest@ =~= input.subrange(i + 1, n as int));
        assert(entries_view(input.take(i + 1)) =~= entries_view(input.take(i as int)).push(
            (e.0@, e.1@),
        ));
        proof {
            entries_view(input.take(i as int)).lemma_filter_push((e.0@, e.1@), pred);
        }
        assert(pred((e.0@, e.1@)) == is_image_entry((e.0@, e.1@)));
        let ghost before = kept@;
        if is_image_file(e.0.as_str()) {
            kept.push(e);
            assert(entries_view(kept@) =~= entries_view(before).push((e.0@, e.1@)));
        }
        i = i + 1;
    }
    assert(input.take(n as int) =~= input);
    sort_by_name(kept)
}

/// Entries that a ZIP archive can hold: pairwise distinct names of at most
/// `MAX_NAME_BYTES` UTF-8 bytes, contents of at most 4 GiB each.
pub open spec fn packable(entries: Seq<(Seq<char>, Seq<u8>)>) -> bool {
    &&& forall|i: int, j: int| 0 <= i < j < entries.len() ==> entries[i].0 != entries[j].0
    &&& forall|i: int|
        0 <= i < entries.len() ==> encode_utf8((#[trigger] entries[i]).0).len() <= MAX_NAME_BYTES
            && entries[i].1.len() <= MAX_ENTRY_BYTES
}

/// The compression of every entry of a CBZ archive: stored, since page
/// images are already compressed and DEFLATE would cost much time for
/// little space.
pub const CBZ_ENTRY_COMPRESSION: EntryCompression = EntryCompression::Stored;

/// `n` entries, all stored.
pub open spec fn stored_methods(n: nat) -> Seq<EntryCompression> {
    Seq::new(n, |_i: int| EntryCompression::Stored)
}

/// Packs the entries, in the order given, as stored (uncompressed) entries
/// of a ZIP archive. The ZIP reader lists and reads back exactly these
/// entries.
pub fn create_cbz(images: Vec<(String, Vec<u8>)>) -> (r: Result<Vec<u8>, ConversionError>)
    ensures
        r is Ok <==> packable(entries_view(images@)),
        r matches Ok(bytes) ==> {
            &&& bytes@ == zip_bytes(entries_view(images@), stored_methods(images@.len()))
            &&& bytes@.len() >= 2 && bytes@[0] == 0x50u8 && bytes@[1] == 0x4bu8
            &&& zip_opens(bytes@)
            &&& zip_listing(bytes@) == entries_view(images@)
            &&& forall|i: int|
                0 <= i < images@.len() ==> zip_entry_opens(bytes@, i) && zip_entry_reads(bytes@, i)
        },
        r matches Err(e) ==> e == ConversionError::SerializationFailed,
{
    let ghost ev = entries_view(images@);
    let n = images.len();
    let mut k: usize = 0;
    while k < n
        invariant
            n == images@.len(),
            ev == entries_view(images@),
            0 <= k <= n,
            forall|j: int|
                0 <= j < k ==> encode_utf8((#[trigger] ev[j]).0).len() <= MAX_NAME_BYTES
                    && ev[j].1.len() <= MAX_ENTRY_BYTES,
        decreases n - k,
    {
        let name_bytes = images[k].0.as_str().as_bytes().len();
        assert(name_bytes == encode_utf8(images@[k as int].0@).len());
        if name_bytes > MAX_NAME_BYTES || images[k].1.len() as u64 > MAX_ENTRY_BYTES {
            assert(ev[k as int] == (images@[k as int].0@, images@[k as int].1@));
            return Err(ConversionError::SerializationFailed);
        }
        assert(ev[k as int] == (images@[k as int].0@, images@[k as int].1@));
        k = k + 1;
    }
    let mut w = new_writer();
    let mut i: usize = 0;
    while i < n
        invariant
            n == images@.len(),
            ev == entries_view(images@),
            0 <= i <= n,
            forall|j: int|
                0 <= j < n ==> encode_utf8((#[trigger] ev[j]).0).len() <= MAX_NAME_BYTES
                    && ev[j].1.len() <= MAX_ENTRY_BYTES,
            written_entries(w) == ev.take(i as int),
            written_methods(w) == stored_methods(i as nat),
            forall|a: int, b: int| 0 <= a < b < i ==> ev[a].0 != ev[b].0,
        decreases n - i,
    {
        let name = &images[i].0;
        let data = &images[i].1;
        assert(ev[i as int] == (name@, data@));
        match start_entry(&mut w, name.as_str(), CBZ_ENTRY_COMPRESSION) {
            Ok(()) => {},
            Err(_) => {
                proof {
                    let names = entry_names(ev.take(i as int));
                    let j = choose|j: int| 0 <= j < names.len() && names[j] == name@;
                    assert(ev[j].0 == ev[i as int].0);
                }
                return Err(ConversionError::SerializationFailed);
            },
        }
        assert forall|j: int| 0 <= j < i implies ev[j].0 != ev[i as int].0 by {
            if ev[j].0 == ev[i as int].0 {
                assert(entry_names(ev.take(i as int))[j] == name@);
            }
        }
        assert(written_methods(w) =~= stored_methods((i + 1) as nat));
        match write_entry_bytes(&mut w, data.as_slice()) {
            Ok(()) => {},
            Err(_) => {
                return Err(ConversionError::SerializationFailed);
            },
        }
        assert(Seq::<u8>::empty() + data@ =~= data@);
        assert(ev.take(i + 1) =~= ev.take(i as int).push((name@, data@)));
        i = i + 1;
    }
    assert(ev.take(n as int) =~= ev);
    match finish_writer(w) {
        Ok(bytes) => Ok(bytes),
        Err(_) => Err(ConversionError::SerializationFailed),
    }
}

/// Every entry of the archive in the bytes opens, and every image entry
/// reads to its end.
pub open spec fn image_entries_readable(data: Seq<u8>) -> bool {
    forall|i: int|
        0 <= i < zip_listing(data).len() ==> zip_entry_opens(data, i) && (is_image_entry(
            #[trigger] zip_listing(data)[i],
        ) ==> zip_entry_reads(data, i))
}

/// Reads the image entries of a ZIP archive, in page order. Entries that
/// are not images are skipped unread.
pub fn extract_zip_images(archive_data: &[u8]) -> (r: Result<
    Vec<(String, Vec<u8>)>,
    ConversionError,
>)
    ensures
        r == Err::<Vec<(String, Vec<u8>)>, ConversionError>(ConversionError::ArchiveOpenFailed)
            <==> !zip_opens(archive_data@),
        zip_opens(archive_data@) && image_entries_readable(archive_data@) ==> r is Ok,
        r matches Ok(v) ==> is_page_order_of(entries_view(v@), zip_listing(archive_data@)),
        r matches Err(e) ==> e == ConversionError::ArchiveOpenFailed || (e
            == ConversionError::ArchiveEntryReadFailed && zip_opens(archive_data@)
            && !image_entries_readable(archive_data@)),
{
    let ghost data = archive_data@;
    let ghost listing = zip_listing(archive_data@);
    let ghost pred = |e: (Seq<char>, Seq<u8>)| is_image_entry(e);
    let mut archive = match open_archive(archive_data) {
        Ok(a) => a,
        Err(_) => {
            return Err(ConversionError::ArchiveOpenFailed);
        },
    };
    let n = archive_len(&archive);
    let mut kept: Vec<(String, Vec<u8>)> = Vec::new();
    let mut i: usize = 0;
    while i < n
        invariant
            n == listing.len(),
            listing == zip_listing(data),
            data == archive_data@,
            zip_opens(data),
            archive_source(archive) == data,
            0 <= i <= n,
            pred == (|e: (Seq<char>, Seq<u8>)| is_image_entry(e)),
            entries_view(kept@) == listing.take(i as int).filter(pred),
        decreases n - i,
    {
        let name = match entry_name(&mut archive, i) {
            Ok(name) => name,
            Err(_) => {
                assert(!zip_entry_opens(data, i as int));
                assert(!image_entries_readable(data)) by {
                    if image_entries_readable(data) {
                        let e = zip_listing(data)[i as int];
                        assert(zip_entry_opens(data, i as int));
                    }
                }
                return Err(ConversionError::ArchiveEntryReadFailed);
            },
        };
        assert(listing.take(i + 1) =~= listing.take(i as int).push(listing[i as int]));
        proof {
            listing.take(i as int).lemma_filter_push(listing[i as int], pred);
        }
        if is_image_file(name.as_str()) {
            assert(is_image_entry(listing[i as int]));
            let bytes = match entry_bytes(&mut archive, i) {
                Ok(b) => b,
                Err(_) => {
                    assert(!zip_entry_reads(data, i as int));
                    assert(!image_entries_readable(data)) by {
                        if image_entries_readable(data) {
                            let e = zip_listing(data)[i as int];
                            assert(is_image_entry(e));
                            assert(zip_entry_reads(data, i as int));
                        }
                    }
                    return Err(ConversionError::ArchiveEntryReadFailed);
                },
            };
            let ghost before = kept@;
            assert((name@, bytes@) == listing[i as int]);
            kept.push((name, bytes));
            assert(entries_view(kept@) =~= entries_view(before).push(listing[i as int]));
        } else {
            assert(!pred(listing[i as int]));
        }
        i = i + 1;
    }
    assert(listing.take(n as int) =~= listing);
    let r = sort_by_name(kept);
    proof {
        lemma_filter_idempotent(listing, pred);
    }
    Ok(r)
}

proof fn lemma_filter_idempotent(s: Seq<(Seq<char>, Seq<u8>)>, pred: spec_fn((Seq<char>, Seq<u8>)) -> bool)
    ensures
        s.filter(pred).filter(pred) == s.filter(pred),
    decreases s.len(),
{
    broadcast use vstd::seq_lib::group_filter_ensures;

    reveal(Seq::filter);
    if s.len() > 0 {
        lemma_filter_idempotent(s.drop_last(), pred);
        let f = s.drop_last().filter(pred);
        if pred(s.last()) {
            f.lemma_filter_push(s.last(), pred);
        }
    }
}

/// What unpacking an archive gives: its page images, or the finding that it
/// is a RAR archive, which only an external tool can unpack.
#[derive(Debug)]
pub enum Unpacked {
    Images(Vec<(String, Vec<u8>)>),
    NeedsRarTool,
}

/// Unpacks a CBZ archive into its page images in page order; a CBR (RAR)
/// archive, told apart by its signature, is handed back to the caller.
pub fn extract_images(archive_data: &[u8]) -> (r: Result<Unpacked, ConversionError>)
    ensures
        is_rar_spec(archive_data@) ==> r matches Ok(Unpacked::NeedsRarTool),
        !is_rar_spec(archive_data@) ==> {
            &&& (r == Err::<Unpacked, ConversionError>(ConversionError::ArchiveOpenFailed)
                <==> !zip_opens(archive_data@))
            &&& zip_opens(archive_data@) && image_entries_readable(archive_data@) ==> r is Ok
            &&& match r {
                Ok(Unpacked::Images(v)) => is_page_order_of(
                    entries_view(v@),
                    zip_listing(archive_data@),
                ),
                Ok(Unpacked::NeedsRarTool) => false,
                Err(e) => e == ConversionError::ArchiveOpenFailed || e
                    == ConversionError::ArchiveEntryReadFailed,
            }
        },
{
    if is_rar_archive(archive_data) {
        return Ok(Unpacked::NeedsRarTool);
    }
    match extract_zip_images(archive_data) {
        Ok(v) => Ok(Unpacked::Images(v)),
        Err(e) => Err(e),
    }
}

/// Names strictly ascending: sorted, no two equal.
pub open spec fn strictly_sorted_by_name(s: Seq<(Seq<char>, Seq<u8>)>) -> bool {
    forall|i: int, j: int|
        0 <= i < j < s.len() ==> name_le(s[i].0, s[j].0) && s[i].0 != s[j].0
}

/// Unpacking keeps a packed page list as it is: when every entry is an
/// image and the names ascend strictly (as `page_NNNN` names do), the page
/// order of the entries is the entries themselves, contents included.
pub proof fn lemma_page_order_keeps_ordered_images(
    entries: Seq<(Seq<char>, Seq<u8>)>,
    r: Seq<(Seq<char>, Seq<u8>)>,
)
    requires
        forall|i: int| 0 <= i < entries.len() ==> is_image_entry(#[trigger] entries[i]),
        strictly_sorted_by_name(entries),
        is_page_order_of(r, entries),
    ensures
        r == entries,
{
    lemma_filter_all(entries, |e: (Seq<char>, Seq<u8>)| is_image_entry(e));
    lemma_sorted_same_multiset(r, entries);
}

proof fn lemma_filter_all(s: Seq<(Seq<char>, Seq<u8>)>, pred: spec_fn((Seq<char>, Seq<u8>)) -> bool)
    requires
        forall|i: int| 0 <= i < s.len() ==> pred(#[trigger] s[i]),
    ensures
        s.filter(pred) == s,
    decreases s.len(),
{
    reveal(Seq::filter);
    if s.len() > 0 {
        lemma_filter_all(s.drop_last(), pred);
        assert(pred(s[s.len() - 1]));
        assert(s.drop_last().push(s.last()) =~= s);
    }
}

proof fn lemma_sorted_same_multiset(r: Seq<(Seq<char>, Seq<u8>)>, e: Seq<(Seq<char>, Seq<u8>)>)
    requires
        sorted_by_name(r),
        strictly_sorted_by_name(e),
        r.to_multiset() == e.to_multiset(),
    ensures
        r == e,
    decreases e.len(),
{
    assert(r.len() == r.to_multiset().len());
    assert(e.len() == e.to_multiset().len());
    if e.len() == 0 {
        assert(r =~= e);
    } else {
        assert(e.contains(e[0]));
        assert(r.to_multiset().count(e[0]) > 0);
        assert(r.contains(e[0]));
        let j = choose|j: int| 0 <= j < r.len() && r[j] == e[0];
        assert(r.contains(r[0]));
        assert(e.to_multiset().count(r[0]) > 0);
        assert(e.contains(r[0]));
        let k = choose|k: int| 0 <= k < e.len() && e[k] == r[0];
        if j > 0 {
            assert(name_le(r[0].0, r[j].0));
        } else {
            lemma_name_le_total(r[0].0, r[0].0);
        }
        if k > 0 {
            assert(name_le(e[0].0, e[k].0));
            lemma_name_le_antisymmetric(e[0].0, e[k].0);
            assert(false);
        }
        assert(r[0] == e[0]);
        assert(r.remove(0) =~= r.drop_first());
        assert(e.remove(0) =~= e.drop_first());
        assert(r.drop_first().to_multiset() == e.drop_first().to_multiset());
        lemma_sorted_same_multiset(r.drop_first(), e.drop_first());
        assert forall|i: int| 0 <= i < r.len() implies r[i] == e[i] by {
            if i > 0 {
                assert(r[i] == r.drop_first()[i - 1]);
                assert(e[i] == e.drop_first()[i - 1]);
            }
        }
        assert(r =~= e);
    }
}

} // verus!
