//! The zip archive of a Word package, written in memory.
use vstd::prelude::*;

verus! {

/// A zip archive being written into memory (entries deflated, dated
/// 1980-01-01).
#[verifier::external_body]
pub struct ZipBuilder {
    w: zip::ZipWriter<std::io::Cursor<Vec<u8>>>,
}

/// The (name, data) entries that an archive being written holds, in order,
/// as long as no call on it has failed.
pub uninterp spec fn zip_entries(z: ZipBuilder) -> Seq<(Seq<char>, Seq<u8>)>;

/// An entry of the archive is open for writing: the last `start_file`
/// succeeded.
pub uninterp spec fn zip_open(z: ZipBuilder) -> bool;

/// No call on the archive has failed yet (a failed call may leave an
/// aborted entry's data behind).
pub uninterp spec fn zip_healthy(z: ZipBuilder) -> bool;

/// The size that deflate compresses data written in one piece to.
pub uninterp spec fn deflated_len(data: Seq<u8>) -> nat;

/// The bytes of the finished archive of these entries, in this order.
pub uninterp spec fn zip_bytes(entries: Seq<(Seq<char>, Seq<u8>)>) -> Seq<u8>;

/// `zip::ZipWriter::new` over an empty in-memory buffer: no entries yet,
/// none open.
#[verifier::external_body]
pub(crate) fn zip_new() -> (z: ZipBuilder)
    ensures
        zip_entries(z) == Seq::<(Seq<char>, Seq<u8>)>::empty(),
        !zip_open(z),
        zip_healthy(z),
{
    ZipBuilder { w: zip::ZipWriter::new(std::io::Cursor::new(Vec::new())) }
}

/// The names of archive entries.
pub open spec fn entry_names(es: Seq<(Seq<char>, Seq<u8>)>) -> Seq<Seq<char>> {
    es.map_values(|e: (Seq<char>, Seq<u8>)| e.0)
}

/// The entry last started, if any, can be finished: none is open, or its
/// deflated data is within 0xFFFFFFFF bytes (entries are not marked as
/// large files, so a larger one fails).
pub open spec fn last_finishes(z: ZipBuilder) -> bool {
    !zip_open(z) || (zip_entries(z).len() > 0 && deflated_len(zip_entries(z).last().1) <= 0xFFFF_FFFF)
}

/// `zip::ZipWriter::start_file` with deflate compression. It first
/// finishes the open entry (which fails when that entry's deflated data
/// exceeds 0xFFFFFFFF bytes), then refuses a name already in the archive;
/// in-memory writes do not fail. When it succeeds the archive holds one
/// more entry, open, with that name and no data. On failure the error's
/// text comes back and the archive is no longer healthy.
/// A name longer than 65535 bytes in UTF-8 makes it panic, so it is left
/// out.
#[verifier::external_body]
pub(crate) fn zip_start_file(z: &mut ZipBuilder, name: &str) -> (r: Result<(), String>)
    requires
        vstd::utf8::encode_utf8(name@).len() <= 65535,
    ensures
        r is Ok ==> zip_entries(*final(z)) == zip_entries(*old(z)).push((name@, Seq::<u8>::empty()))
            && zip_open(*final(z)) && zip_healthy(*final(z)) == zip_healthy(*old(z)),
        r is Err ==> !zip_healthy(*final(z)),
        zip_healthy(*old(z)) && (!zip_open(*old(z)) || (zip_entries(*old(z)).len() > 0 && deflated_len(
            zip_entries(*old(z)).last().1,
        ) <= 0xFFFF_FFFF)) && !entry_names(zip_entries(*old(z))).contains(name@) ==> r is Ok,
{
    let opts = zip::write::SimpleFileOptions::default()
        .compression_method(zip::CompressionMethod::Deflated);
    z.w.start_file(name, opts).map_err(|e| e.to_string())
}

/// `std::io::Write::write_all` on the archive, once for the entry just
/// started: when it succeeds the entry's data is `data` and it stays open.
/// It fails when no entry is open or when the entry's data exceeds
/// 0xFFFFFFFF bytes (it is not marked as a large file), so it succeeds on
/// an open entry of a healthy archive with data within that. On failure
/// the error's text comes back and the archive is no longer healthy.
#[verifier::external_body]
pub(crate) fn zip_write(z: &mut ZipBuilder, data: &[u8]) -> (r: Result<(), String>)
    requires
        zip_open(*old(z)),
        zip_entries(*old(z)).len() > 0,
        zip_entries(*old(z)).last().1.len() == 0,
    ensures
        r is Ok ==> zip_entries(*final(z)) == zip_entries(*old(z)).update(
            zip_entries(*old(z)).len() - 1,
            (zip_entries(*old(z)).last().0, data@),
        ) && zip_open(*final(z)) && zip_healthy(*final(z)) == zip_healthy(*old(z)),
        r is Err ==> !zip_healthy(*final(z)),
        zip_healthy(*old(z)) && data@.len() <= 0xFFFF_FFFF ==> r is Ok,
{
    std::io::Write::write_all(&mut z.w, data).map_err(|e| e.to_string())
}

/// `zip::ZipWriter::finish`: finishes the open entry (see `last_finishes`)
/// and writes the central directory into the in-memory buffer. On a
/// healthy archive whose last entry can be finished it succeeds; on a
/// healthy archive its bytes are those of the archive of its entries.
#[verifier::external_body]
pub(crate) fn zip_finish(z: ZipBuilder) -> (r: Result<Vec<u8>, String>)
    ensures
        zip_healthy(z) && (!zip_open(z) || (zip_entries(z).len() > 0 && deflated_len(zip_entries(z).last().1)
            <= 0xFFFF_FFFF)) ==> r is Ok,
        zip_healthy(z) ==> (r matches Ok(b) ==> b@ == zip_bytes(zip_entries(z))),
{
    z.w.finish().map(|c| c.into_inner()).map_err(|e| e.to_string())
}

/// `std::io::Error::other`: an I/O error carrying a message.
#[verifier::external_body]
pub(crate) fn io_error(msg: String) -> std::io::Error {
    std::io::Error::other(msg)
}

} // verus!
