//! Packaging staged page files into a zip-based comic book archive.
//!
//! The packager works on in-memory bytes: the caller reads the staged files,
//! hands them in, and writes the returned archive bytes to disk. The zip
//! container itself comes from the `zip` crate, behind trusted wrappers whose
//! contracts speak of the archive's entries.

use vstd::prelude::*;
use crate::model::{OutputFormats, SiteDownloaderError};
use crate::text::{base_name_of, utf8_length};

verus! {

/// The longest entry name a zip container can record: its name-length field
/// is sixteen bits wide.
pub const MAX_ENTRY_NAME_BYTES: u64 = 65535;

/// Some entry already carries the name `n`.
pub open spec fn name_taken(entries: Seq<(Seq<char>, Seq<u8>)>, n: Seq<char>) -> bool {
    exists|j: int| 0 <= j < entries.len() && entries[j].0 == n
}

/// The entry names are pairwise distinct, as a container of one issue's
/// distinctly numbered pages has them.
pub open spec fn distinct_names(entries: Seq<(Seq<char>, Seq<u8>)>) -> bool {
    forall|i: int, j: int| 0 <= i < j < entries.len() ==> entries[i].0 != entries[j].0
}

/// Every entry name fits the container's name-length field.
pub open spec fn names_fit(entries: Seq<(Seq<char>, Seq<u8>)>) -> bool {
    forall|i: int|
        0 <= i < entries.len() ==> utf8_length(entries[i].0) <= MAX_ENTRY_NAME_BYTES
}

/// A finished archive, ready to be written to disk under its name.
#[derive(Debug)]
pub struct ArchiveFile {
    pub name: String,
    pub bytes: Vec<u8>,
}

/// The file name of an issue's archive: comic name, a dash, the issue's
/// label, and the format's extension.
pub open spec fn archive_name_spec(comic: Seq<char>, issue: Seq<char>, format: OutputFormats) -> Seq<
    char,
> {
    comic + "-"@ + issue + "."@ + (match format {
        OutputFormats::Pdf => "pdf"@,
        OutputFormats::Cbz => "cbz"@,
    })
}

/// Builds the file name an issue's archive lives under; the entry guard
/// checks the same name, so a finished issue is recognized on a rerun.
pub fn archive_file_name(comic: &str, issue: &str, format: OutputFormats) -> (r: String)
    ensures
        r@ == archive_name_spec(comic@, issue@, format),
{
    let r = String::from_str(comic).concat("-").concat(issue).concat(".").concat(
        format.format_string(),
    );
    proof {
        assert(r@ =~= archive_name_spec(comic@, issue@, format));
    }
    r
}

/// One staged page: a file name and the raw image bytes.
pub struct PageFile {
    pub name: String,
    pub bytes: Vec<u8>,
}

/// The mathematical view of a [`PageFile`]: name and bytes as sequences.
pub struct PageFileModel {
    pub name: Seq<char>,
    pub bytes: Seq<u8>,
}

impl View for PageFile {
    type V = PageFileModel;

    open spec fn view(&self) -> PageFileModel {
        PageFileModel { name: self.name@, bytes: self.bytes@ }
    }
}

/// The archive entries that a sequence of page files should become.
pub open spec fn entry_views(files: Seq<PageFile>) -> Seq<(Seq<char>, Seq<u8>)> {
    files.map_values(|f: PageFile| (f.name@, f.bytes@))
}

/// As [`entry_views`], but with each name cut to its bare file name.
pub open spec fn stripped_entry_views(files: Seq<PageFile>) -> Seq<(Seq<char>, Seq<u8>)> {
    files.map_values(|f: PageFile| (base_name_of(f.name@), f.bytes@))
}

/// An archive in the making: the `zip` crate's writer over an in-memory
/// cursor. The writer's `std::io` trait bounds keep its type from being
/// declared to Verus directly, so it sits in a field hidden from
/// verification, reached only through the trusted wrappers below.
#[verifier::external_body]
pub struct ArchiveWriter {
    inner: zip::ZipWriter<std::io::Cursor<Vec<u8>>>,
}

/// The entries an in-progress archive writer holds: pairs of entry name and
/// entry bytes, in the order they were started.
pub uninterp spec fn zip_contents(w: ArchiveWriter) -> Seq<(Seq<char>, Seq<u8>)>;

/// The writer is intact: every operation on it so far has succeeded, so it
/// is ready to take another entry or to be closed.
pub uninterp spec fn writer_intact(w: ArchiveWriter) -> bool;

/// The entries a finished archive's bytes decode to, in order.
pub uninterp spec fn zip_entries(bytes: Seq<u8>) -> Seq<(Seq<char>, Seq<u8>)>;

/// Relies on `zip::ZipWriter::new`: a writer over a fresh in-memory cursor
/// begins an archive with no entries.
#[verifier::external_body]
fn zip_writer_new() -> (w: ArchiveWriter)
    ensures
        zip_contents(w) == Seq::<(Seq<char>, Seq<u8>)>::empty(),
        writer_intact(w),
{
    ArchiveWriter { inner: zip::ZipWriter::new(std::io::Cursor::new(Vec::new())) }
}

/// Relies on `zip::ZipWriter::start_file` and `std::io::Write::write_all` on
/// the writer, with the large-file option set so that neither the write-time
/// size guard nor the header's four-byte size fields can reject an entry of
/// any length. On an intact in-memory writer the pair then fails for exactly
/// two reasons, both functions of the arguments: an entry with this name was
/// already started, or the name's UTF-8 form overflows the container's
/// sixteen-bit name-length field; writes to the cursor itself cannot fail.
/// On success they append exactly one deflate-compressed entry holding the
/// given name and bytes, and the writer stays intact.
#[verifier::external_body]
fn zip_add_file(
    w: &mut ArchiveWriter,
    name: &str,
    data: &Vec<u8>,
) -> (r: Result<(), ()>)
    ensures
        writer_intact(*old(w)) ==> (r is Ok <==> (!name_taken(zip_contents(*old(w)), name@)
            && utf8_length(name@) <= MAX_ENTRY_NAME_BYTES)),
        (writer_intact(*old(w)) && r is Ok) ==> (zip_contents(*final(w)) == zip_contents(
            *old(w),
        ).push((name@, data@)) && writer_intact(*final(w))),
{
    let options = zip::write::SimpleFileOptions::default().compression_method(
        zip::CompressionMethod::Deflated,
    ).large_file(true);
    if w.inner.start_file(name, options).is_err() {
        return Err(());
    }
    if std::io::Write::write_all(&mut w.inner, data.as_slice()).is_err() {
        return Err(());
    }
    Ok(())
}

/// Relies on `zip::ZipWriter::finish`: it closes the archive and returns the
/// underlying cursor, whose bytes decode to exactly the entries written. On
/// an intact in-memory writer it cannot fail: every entry was started with
/// the large-file option, so its local header carries eight-byte size fields
/// instead of failing on four-byte ones; the central directory goes to the
/// cursor with clamped size fields, and an oversized directory switches to
/// the large-archive footer.
#[verifier::external_body]
fn zip_finish(w: ArchiveWriter) -> (r: Result<Vec<u8>, ()>)
    ensures
        writer_intact(w) ==> r is Ok,
        r matches Ok(b) ==> (writer_intact(w) ==> zip_entries(b@) == zip_contents(w)),
{
    match w.inner.finish() {
        Ok(cursor) => Ok(cursor.into_inner()),
        Err(_) => Err(()),
    }
}

/// Bundles the staged page files, in the order given, into one zip archive
/// held in memory. Each file becomes one entry under its given name.
/// Success is owed whenever the names are pairwise distinct and fit the
/// container; failure reports `FileSystemError`.
pub fn package_cbz(files: &Vec<PageFile>) -> (r: Result<Vec<u8>, SiteDownloaderError>)
    ensures
        r matches Ok(bytes) ==> zip_entries(bytes@) == entry_views(files@),
        r matches Err(e) ==> e == SiteDownloaderError::FileSystemError,
        (distinct_names(entry_views(files@)) && names_fit(entry_views(files@))) ==> r is Ok,
{
    let mut w = zip_writer_new();
    proof {
        assert(entry_views(files@.subrange(0, 0)) =~= Seq::<(Seq<char>, Seq<u8>)>::empty());
    }
    let mut i: usize = 0;
    while i < files.len()
        invariant
            i <= files@.len(),
            writer_intact(w),
            zip_contents(w) == entry_views(files@.subrange(0, i as int)),
        decreases files@.len() - i,
    {
        let f = &files[i];
        let ghost pre = zip_contents(w);
        if zip_add_file(&mut w, f.name.as_str(), &f.bytes).is_err() {
            proof {
                // the add refuses only a repeated or oversized name, so the
                // promised inputs never reach this branch
                if distinct_names(entry_views(files@)) && names_fit(entry_views(files@)) {
                    assert(entry_views(files@)[i as int].0 == files@[i as int].name@);
                    if name_taken(pre, files@[i as int].name@) {
                        let j = choose|j: int|
                            0 <= j < pre.len() && pre[j].0 == files@[i as int].name@;
                        assert(pre[j] == entry_views(files@.subrange(0, i as int))[j]);
                        assert(entry_views(files@)[j].0 == files@[j].name@);
                        assert(false);
                    }
                    assert(false);
                }
            }
            return Err(SiteDownloaderError::FileSystemError);
        }
        proof {
            assert(entry_views(files@.subrange(0, i + 1)) =~= entry_views(
                files@.subrange(0, i as int),
            ).push((files@[i as int].name@, files@[i as int].bytes@)));
        }
        i += 1;
    }
    proof {
        assert(files@.subrange(0, files@.len() as int) =~= files@);
    }
    let ghost intact = writer_intact(w);
    match zip_finish(w) {
        Ok(bytes) => Ok(bytes),
        Err(_) => {
            proof {
                // an intact in-memory writer always closes
                assert(false);
            }
            Err(SiteDownloaderError::FileSystemError)
        },
    }
}

/// The archive round trip: an archive whose entries are a staging's page
/// files holds exactly one entry per staged file, in order, each under the
/// file's name and byte-identical to it.
pub proof fn lemma_archive_round_trip(files: Seq<PageFile>, bytes: Seq<u8>)
    requires
        zip_entries(bytes) == entry_views(files),
    ensures
        zip_entries(bytes).len() == files.len(),
        forall|k: int|
            0 <= k < files.len() ==> zip_entries(bytes)[k].0 == files[k].name@ && zip_entries(
                bytes,
            )[k].1 == files[k].bytes@,
{
    assert forall|k: int|
        0 <= k < files.len() implies zip_entries(bytes)[k].0 == files[k].name@ && zip_entries(
        bytes,
    )[k].1 == files[k].bytes@ by {
        assert(entry_views(files)[k] == (files[k].name@, files[k].bytes@));
    }
}

/// As [`package_cbz`], but each entry is named by the bare file name of its
/// path, as staged files enumerated from a directory carry full paths.
/// Success is owed whenever the bare names are pairwise distinct and fit
/// the container.
pub fn package_cbz_bare(files: &Vec<PageFile>) -> (r: Result<Vec<u8>, SiteDownloaderError>)
    ensures
        r matches Ok(bytes) ==> zip_entries(bytes@) == stripped_entry_views(files@),
        r matches Err(e) ==> e == SiteDownloaderError::FileSystemError,
        (distinct_names(stripped_entry_views(files@)) && names_fit(stripped_entry_views(files@)))
            ==> r is Ok,
{
    let mut w = zip_writer_new();
    proof {
        assert(stripped_entry_views(files@.subrange(0, 0)) =~= Seq::<
            (Seq<char>, Seq<u8>),
        >::empty());
    }
    let mut i: usize = 0;
    while i < files.len()
        invariant
            i <= files@.len(),
            writer_intact(w),
            zip_contents(w) == stripped_entry_views(files@.subrange(0, i as int)),
        decreases files@.len() - i,
    {
        let f = &files[i];
        let bare = crate::text::base_name(f.name.as_str());
        let ghost pre = zip_contents(w);
        if zip_add_file(&mut w, bare.as_str(), &f.bytes).is_err() {
            proof {
                // the add refuses only a repeated or oversized name, so the
                // promised inputs never reach this branch
                if distinct_names(stripped_entry_views(files@)) && names_fit(
                    stripped_entry_views(files@),
                ) {
                    assert(stripped_entry_views(files@)[i as int].0 == base_name_of(
                        files@[i as int].name@,
                    ));
                    if name_taken(pre, bare@) {
                        let j = choose|j: int| 0 <= j < pre.len() && pre[j].0 == bare@;
                        assert(pre[j] == stripped_entry_views(files@.subrange(0, i as int))[j]);
                        assert(stripped_entry_views(files@)[j].0 == base_name_of(
                            files@[j].name@,
                        ));
                        assert(false);
                    }
                    assert(false);
                }
            }
            return Err(SiteDownloaderError::FileSystemError);
        }
        proof {
            assert(stripped_entry_views(files@.subrange(0, i + 1)) =~= stripped_entry_views(
                files@.subrange(0, i as int),
            ).push((base_name_of(files@[i as int].name@), files@[i as int].bytes@)));
        }
        i += 1;
    }
    proof {
        assert(files@.subrange(0, files@.len() as int) =~= files@);
    }
    let ghost intact = writer_intact(w);
    match zip_finish(w) {
        Ok(bytes) => Ok(bytes),
        Err(_) => {
            proof {
                // an intact in-memory writer always closes
                assert(false);
            }
            Err(SiteDownloaderError::FileSystemError)
        },
    }
}

} // verus!
