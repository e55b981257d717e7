//! The trusted boundary around the `zip` crate.
//!
//! The archive container lives in memory: the writer streams into a
//! `Cursor<Vec<u8>>` and the reader opens one.  What a writer holds, what a
//! finished archive's bytes decode to, and what an open archive hands back
//! are named by uninterpreted spec functions, and each wrapper states over
//! those names what the `zip` crate's source shows.
use crate::paths::name_len_ok;
use vstd::prelude::*;

verus! {

#[verifier::external_type_specification]
#[verifier::external_body]
pub struct ExZipError(zip::result::ZipError);

/// An archive writer over an in-memory buffer.  Verus refuses the generic
/// declaration of `zip`'s writer (its bounds are outside traits), so the
/// writer lives in an opaque field and is spoken of only through
/// [`writer_entries`].
#[verifier::external_body]
pub struct MemWriter {
    inner: zip::write::ZipWriter<std::io::Cursor<Vec<u8>>>,
}

/// An archive reader over an in-memory buffer, opaque like [`MemWriter`]
/// and spoken of only through [`archive_entries`] and [`archive_wf`].
#[verifier::external_body]
pub struct MemArchive {
    inner: zip::read::ZipArchive<std::io::Cursor<Vec<u8>>>,
}

/// An entry as written: name, payload, and the permission bits it was
/// given.
pub type WrittenEntry = (Seq<char>, Seq<u8>, u32);

/// An entry as read back: name, decompressed payload, unix mode if the
/// archive carries one, and comment.
pub type StoredEntry = (Seq<char>, Seq<u8>, Option<u32>, Seq<char>);

/// The file entries a writer holds so far, in the order they were started.
pub uninterp spec fn writer_entries(w: MemWriter) -> Seq<WrittenEntry>;

/// What reading an archive with these bytes returns: `Some(entries)` when
/// opening succeeds and every entry reads back, `None` otherwise.  Reading
/// an archive is a function of its bytes alone.
pub uninterp spec fn zip_decode(bytes: Seq<u8>) -> Option<Seq<StoredEntry>>;

/// The entries an open archive hands back, by index.
pub uninterp spec fn archive_entries(a: MemArchive) -> Seq<StoredEntry>;

/// Whether every entry of this open archive reads back successfully.
pub uninterp spec fn archive_wf(a: MemArchive) -> bool;

/// A payload small enough that writing it cannot overflow the container's
/// 32-bit size fields: the codec's worst case adds at most `len / 256`
/// plus a constant margin to an entry, so below this bound both the
/// uncompressed and the compressed size stay within those fields.
pub open spec fn entry_fits(data: Seq<u8>) -> bool {
    data.len() <= 0xFF00_0000
}

/// The mode under which a file entry written with permission bits `m`
/// comes back: `zip` keeps the permission bits and adds the regular-file
/// type bit.
pub open spec fn stored_mode(m: u32) -> u32 {
    (m & 0o777) | 0o100000
}

/// How a written file entry reads back: same name and payload, its stored
/// mode, and an empty comment.
pub open spec fn read_back_entry(e: WrittenEntry) -> StoredEntry {
    (e.0, e.1, Some(stored_mode(e.2)), Seq::empty())
}

/// How a written archive reads back, entry for entry.
pub open spec fn read_back(es: Seq<WrittenEntry>) -> Seq<StoredEntry> {
    es.map_values(|e: WrittenEntry| read_back_entry(e))
}

/// Relies on `zip::write::ZipWriter::new`: a fresh writer holds no
/// entries.
#[verifier::external_body]
pub fn writer_new() -> (w: MemWriter)
    ensures
        writer_entries(w) == Seq::<WrittenEntry>::empty(),
{
    MemWriter { inner: zip::write::ZipWriter::new(std::io::Cursor::new(Vec::new())) }
}

/// Relies on `zip::write::ZipWriter::start_file` and the `Write` impl of
/// `ZipWriter`: together they append one file entry named `name`, holding
/// exactly `data`, compressed with zstd at `level`, with permission bits
/// `mode & 0o777` (plus the regular-file type bit added by `start_file`).
/// Levels outside zstd's range and names that overflow the header's
/// 16-bit name length are excluded up front: on such input `start_file`
/// would fail midway or store a corrupt length.  The in-memory cursor
/// itself cannot fail, and the only remaining failure path is an entry
/// overflowing a 32-bit size field, so when every payload held so far and
/// the new one satisfy [`entry_fits`], the call succeeds.
#[verifier::external_body]
pub fn writer_add_file(
    w: &mut MemWriter,
    name: &String,
    data: &Vec<u8>,
    mode: u32,
    level: i32,
) -> (r: Result<(), zip::result::ZipError>)
    requires
        -7 <= level <= 22,
        name_len_ok(name@),
    ensures
        r is Ok ==> writer_entries(*final(w)) == writer_entries(*old(w)).push(
            (name@, data@, mode),
        ),
        (forall|j: int|
            0 <= j < writer_entries(*old(w)).len() ==> entry_fits(
                (#[trigger] writer_entries(*old(w))[j]).1,
            )) && entry_fits(data@) ==> r is Ok,
{
    let options = zip::write::FileOptions::default().compression_method(
        zip::CompressionMethod::Zstd,
    ).compression_level(Some(level)).unix_permissions(mode);
    w.inner.start_file(name.as_str(), options)?;
    std::io::Write::write_all(&mut w.inner, data.as_slice())?;
    Ok(())
}

/// Relies on `zip::write::ZipWriter::finish` and `Cursor::into_inner`: the
/// finished bytes form an archive that reads back exactly the entries
/// written, in order, each with its stored mode and an empty comment.
/// Finishing writes the central directory to the in-memory cursor, which
/// cannot fail (oversized entry counts and offsets get a zip64 footer),
/// so the call succeeds whenever every payload satisfies [`entry_fits`] —
/// unconditionally so for an archive with no entries.
#[verifier::external_body]
pub fn writer_finish(w: MemWriter) -> (r: Result<Vec<u8>, zip::result::ZipError>)
    ensures
        r matches Ok(bytes) ==> zip_decode(bytes@) == Some(read_back(writer_entries(w))),
        (forall|j: int|
            0 <= j < writer_entries(w).len() ==> entry_fits(
                (#[trigger] writer_entries(w)[j]).1,
            )) ==> r is Ok,
{
    let mut w = w;
    let cursor = w.inner.finish()?;
    Ok(cursor.into_inner())
}

/// Relies on `zip::read::ZipArchive::new`: it accepts the bytes of any
/// archive whose entries read back (the meaning of `zip_decode`), and what
/// it hands back is determined by the bytes.
#[verifier::external_body]
pub fn archive_open(bytes: &Vec<u8>) -> (r: Result<MemArchive, zip::result::ZipError>)
    ensures
        zip_decode(bytes@) is Some ==> r is Ok,
        r matches Ok(a) ==> (zip_decode(bytes@) matches Some(es) ==> archive_entries(a) == es
            && archive_wf(a)),
{
    Ok(MemArchive { inner: zip::read::ZipArchive::new(std::io::Cursor::new(bytes.clone()))? })
}

/// Relies on `zip::read::ZipArchive::len`: the number of entries the
/// archive's central directory lists.
#[verifier::external_body]
pub fn archive_len(a: &MemArchive) -> (r: usize)
    ensures
        r == archive_entries(*a).len(),
{
    a.inner.len()
}

/// Relies on `zip::read::ZipArchive::by_index`, `Read::read_to_end` on the
/// entry, and `ZipFile::{name, unix_mode, comment}`: reading entry `i`
/// gives its stored name, decompressed payload, unix mode and comment, and
/// leaves the archive's contents as they were.  On a well-formed archive
/// the read succeeds.
#[verifier::external_body]
pub fn archive_read_entry(a: &mut MemArchive, i: usize) -> (r: Result<
    (String, Vec<u8>, Option<u32>, String),
    zip::result::ZipError,
>)
    requires
        i < archive_entries(*old(a)).len(),
    ensures
        archive_entries(*final(a)) == archive_entries(*old(a)),
        archive_wf(*final(a)) == archive_wf(*old(a)),
        archive_wf(*old(a)) ==> r is Ok,
        r matches Ok(e) ==> (e.0@, e.1@, e.2, e.3@) == archive_entries(*old(a))[i as int],
{
    let mut f = a.inner.by_index(i)?;
    let mut data = Vec::new();
    std::io::Read::read_to_end(&mut f, &mut data)?;
    let name = f.name().to_string();
    let mode = f.unix_mode();
    let comment = f.comment().to_string();
    Ok((name, data, mode, comment))
}

} // verus!
