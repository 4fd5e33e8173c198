//! The replay archive while it is written: a compressed container of named
//! entries, built in memory and handed out as bytes when it is closed.

use crate::error::Error;
use std::io::Cursor;
use std::io::Write;
use vstd::prelude::*;
use zip::result::ZipError;
use zip::write::SimpleFileOptions;
use zip::ZipWriter;

verus! {

/// A replay archive that is being written: a `zip::ZipWriter` over an
/// in-memory buffer.
///
/// At most one entry is open at a time: beginning an entry closes the one
/// before it. The writer is not looked into by the verifier: what it holds is
/// known through [`archive_entries`] and [`entry_open`] alone, as the
/// functions below state it of each call.
#[verifier::external_body]
pub struct ArchiveWriter {
    writer: ZipWriter<Cursor<Vec<u8>>>,
}

/// `zip::result::ZipError`, carried through unread.
#[verifier::external_type_specification]
#[verifier::external_body]
pub struct ExZipError(ZipError);

/// `std::io::Error`, carried through unread.
#[verifier::external_type_specification]
#[verifier::external_body]
pub struct ExIoError(std::io::Error);

/// One entry of an archive: its name and its uncompressed content.
pub type Entry = (Seq<char>, Seq<u8>);

/// The entries that the archive's `zip::ZipWriter` holds, in the order in
/// which they were started, each with the bytes written to it so far.
pub uninterp spec fn archive_entries(archive: ArchiveWriter) -> Seq<Entry>;

/// Whether the last entry of the archive's `zip::ZipWriter` is open for
/// writing.
pub uninterp spec fn entry_open(archive: ArchiveWriter) -> bool;

/// The entries that the bytes of a finished archive hold, in the order of
/// its central directory, each with its uncompressed content.
pub uninterp spec fn archive_listing(bytes: Seq<u8>) -> Seq<Entry>;

/// The content of one entry stays below this many bytes: a write that would
/// reach it is refused.
pub const ENTRY_LIMIT: u64 = 0xffff_ffff;

/// An open entry whose content is at most this many bytes can be closed:
/// deflated, it is then still short of [`ENTRY_LIMIT`].
pub const SEAL_LIMIT: u64 = 0x7fff_ffff;

/// Longest name, in characters, that a new entry is sure to take.
pub const NAME_LIMIT: usize = 255;

/// Whether one of the entries has this name.
pub open spec fn has_name(entries: Seq<Entry>, name: Seq<char>) -> bool {
    exists|i: int| 0 <= i < entries.len() && (#[trigger] entries[i]).0 == name
}

/// Whether the entry that is open, if one is, can be closed.
pub open spec fn closable(entries: Seq<Entry>, open: bool) -> bool {
    !open || (entries.len() > 0 && entries.last().1.len() <= SEAL_LIMIT)
}

/// Whether these bytes would bring the content of the open entry up to
/// [`ENTRY_LIMIT`].
pub open spec fn overfull(entries: Seq<Entry>, open: bool, bytes: Seq<u8>) -> bool {
    open && entries.len() > 0 && bytes.len() > 0 && entries.last().1.len() + bytes.len()
        >= ENTRY_LIMIT
}

/// The entries after `bytes` are added to the content of the last one.
pub open spec fn with_appended(entries: Seq<Entry>, bytes: Seq<u8>) -> Seq<Entry> {
    if entries.len() == 0 {
        entries
    } else {
        entries.drop_last().push((entries.last().0, entries.last().1 + bytes))
    }
}

/// Adding no bytes leaves the entries as they are.
pub proof fn lemma_append_nothing(entries: Seq<Entry>, bytes: Seq<u8>)
    requires
        bytes.len() == 0,
    ensures
        with_appended(entries, bytes) == entries,
{
    if entries.len() > 0 {
        assert(entries.last().1 + bytes =~= entries.last().1);
        assert(with_appended(entries, bytes) =~= entries);
    }
}

/// `zip::ZipWriter::new` over an empty in-memory buffer: an archive with no
/// entry, and none open.
#[verifier::external_body]
fn zip_new() -> (writer: ArchiveWriter)
    ensures
        archive_entries(writer) == Seq::<Entry>::empty(),
        !entry_open(writer),
{
    ArchiveWriter { writer: ZipWriter::new(Cursor::new(Vec::new())) }
}

/// `zip::ZipWriter::start_file` with the default options. Where it succeeds,
/// the entry that was open is closed with its content kept, and a new, empty
/// entry of the given name is the last one and open. It succeeds where the
/// open entry, if any, can be closed, and the name is new, not empty and of
/// at most [`NAME_LIMIT`] characters: the writer is in memory, so nothing
/// but the entry's sizes, the length of the name and a name used twice can
/// make it fail. Nothing is claimed of a failure.
#[verifier::external_body]
fn zip_start_file(writer: &mut ArchiveWriter, name: &str) -> (started: Result<
    (),
    ZipError,
>)
    ensures
        closable(archive_entries(*old(writer)), entry_open(*old(writer))) && 0 < name@.len()
            <= NAME_LIMIT && !has_name(archive_entries(*old(writer)), name@) ==> started is Ok,
        started is Ok ==> archive_entries(*final(writer)) == archive_entries(*old(writer)).push(
            (name@, Seq::<u8>::empty()),
        ),
        started is Ok ==> entry_open(*final(writer)),
{
    writer.writer.start_file(name, SimpleFileOptions::default())
}

/// `std::io::Write::write_all` on a `zip::ZipWriter`. Where it succeeds with
/// bytes to write, an entry was open and stays open, and the bytes are added
/// to the end of its content; with no bytes to write it changes nothing. It
/// succeeds where an entry is open and its content stays below
/// [`ENTRY_LIMIT`]: the writer is in memory, so nothing but that limit and a
/// missing entry can make it fail. With bytes to write and no entry open it
/// fails and changes nothing; where the content would reach the limit it
/// fails, and the writer drops the entry and has none open.
#[verifier::external_body]
fn zip_write_all(writer: &mut ArchiveWriter, bytes: &[u8]) -> (written: Result<
    (),
    std::io::Error,
>)
    ensures
        !entry_open(*old(writer)) && bytes@.len() > 0 ==> written is Err && archive_entries(
            *final(writer),
        ) == archive_entries(*old(writer)) && !entry_open(*final(writer)),
        overfull(archive_entries(*old(writer)), entry_open(*old(writer)), bytes@) ==> written
            is Err && archive_entries(*final(writer)) == archive_entries(
            *old(writer),
        ).drop_last() && !entry_open(*final(writer)),
        entry_open(*old(writer)) && archive_entries(*old(writer)).len() > 0 && archive_entries(
            *old(writer),
        ).last().1.len() + bytes@.len() < ENTRY_LIMIT ==> written is Ok,
        written is Ok && bytes@.len() > 0 ==> entry_open(*old(writer)) && entry_open(
            *final(writer),
        ),
        written is Ok && bytes@.len() > 0 ==> archive_entries(*final(writer)) == with_appended(
            archive_entries(*old(writer)),
            bytes@,
        ),
        written is Ok && bytes@.len() == 0 ==> archive_entries(*final(writer)) == archive_entries(
            *old(writer),
        ) && entry_open(*final(writer)) == entry_open(*old(writer)),
{
    writer.writer.write_all(bytes)
}

/// `zip::ZipWriter::finish`, then the buffer that it returns. Where it
/// succeeds, the bytes are an archive that holds the writer's entries. It
/// succeeds where the open entry, if any, can be closed: the writer is in
/// memory, so nothing but that entry's sizes can make it fail.
#[verifier::external_body]
fn zip_finish(writer: ArchiveWriter) -> (closed: Result<Vec<u8>, ZipError>)
    ensures
        closable(archive_entries(writer), entry_open(writer)) ==> closed is Ok,
        closed is Ok ==> archive_listing(closed->Ok_0@) == archive_entries(writer),
{
    writer.writer.finish().map(Cursor::into_inner)
}

impl ArchiveWriter {
    /// The entries so far, in order, each with its name and content.
    pub open spec fn entries(&self) -> Seq<Entry> {
        archive_entries(*self)
    }

    /// Whether the last entry accepts more bytes.
    pub open spec fn is_open(&self) -> bool {
        entry_open(*self)
    }

    /// An archive without entries.
    pub fn new() -> (archive: ArchiveWriter)
        ensures
            archive.entries() == Seq::<Entry>::empty(),
            !archive.is_open(),
    {
        zip_new()
    }

    /// Closes the open entry, if any, and opens a new, empty one.
    ///
    /// Succeeds where the open entry, if any, holds at most [`SEAL_LIMIT`]
    /// bytes, and the name is new, not empty and of at most [`NAME_LIMIT`]
    /// characters.
    pub fn begin_entry(&mut self, name: &str) -> (begun: Result<(), Error>)
        ensures
            closable(old(self).entries(), old(self).is_open()) && 0 < name@.len() <= NAME_LIMIT
                && !has_name(old(self).entries(), name@) ==> begun is Ok,
            begun is Ok ==> final(self).entries() == old(self).entries().push(
                (name@, Seq::<u8>::empty()),
            ) && final(self).is_open(),
            begun is Err ==> begun->Err_0 == Error::Io,
    {
        match zip_start_file(self, name) {
            Ok(()) => Ok(()),
            Err(_) => Err(Error::Io),
        }
    }

    /// Adds bytes to the end of the open entry.
    ///
    /// Succeeds where an entry is open and its content stays below
    /// [`ENTRY_LIMIT`] bytes. With no entry open, bytes are refused and
    /// nothing changes. Bytes that would bring the content up to the limit
    /// are refused, and the entry is dropped from the archive.
    pub fn append(&mut self, bytes: &[u8]) -> (appended: Result<(), Error>)
        ensures
            !old(self).is_open() && bytes@.len() > 0 ==> appended is Err && final(self).entries()
                == old(self).entries() && !final(self).is_open(),
            overfull(old(self).entries(), old(self).is_open(), bytes@) ==> appended is Err
                && final(self).entries() == old(self).entries().drop_last() && !final(self).is_open(),
            old(self).is_open() && old(self).entries().len() > 0 && old(self).entries().last().1.len() + bytes@.len() < ENTRY_LIMIT ==> appended is Ok,
            appended is Ok ==> final(self).entries() == with_appended(old(self).entries(), bytes@),
            appended is Ok && bytes@.len() > 0 ==> old(self).is_open() && final(self).is_open(),
            appended is Ok && bytes@.len() == 0 ==> final(self).is_open() == old(self).is_open(),
            appended is Err ==> appended->Err_0 == Error::Io,
    {
        match zip_write_all(self, bytes) {
            Ok(()) => {
                proof {
                    if bytes@.len() == 0 {
                        lemma_append_nothing(old(self).entries(), bytes@);
                    }
                }
                Ok(())
            },
            Err(_) => Err(Error::Io),
        }
    }

    /// Closes the open entry and the archive, and hands out its bytes.
    ///
    /// Succeeds where the open entry, if any, holds at most [`SEAL_LIMIT`]
    /// bytes.
    pub fn finalize(self) -> (closed: Result<Vec<u8>, Error>)
        ensures
            closable(self.entries(), self.is_open()) ==> closed is Ok,
            closed is Ok ==> archive_listing(closed->Ok_0@) == self.entries(),
            closed is Err ==> closed->Err_0 == Error::Io,
    {
        match zip_finish(self) {
            Ok(bytes) => Ok(bytes),
            Err(_) => Err(Error::Io),
        }
    }
}

} // verus!
