//! The single serialization point through which every archive write passes.
//!
//! A gateway owns the container writer. Appending takes `&mut self`, so two
//! appends never interleave, and `finish` takes the gateway by value, so it
//! runs once and nothing can be appended after it.

use vstd::prelude::*;
use vstd::string::*;

verus! {

/// Container metadata of one file entry.
#[derive(Clone, Debug)]
pub struct ArchiveHeader {
    /// Name inside the archive.
    pub path: String,
    pub size_bytes: u64,
    pub permission_bits: u32,
    pub modification_time_epoch_seconds: u64,
}

/// One entry as the gateway handed it to the container writer: its name,
/// kind, header fields and contents.
pub struct ArchiveRecord {
    pub name: Seq<char>,
    pub is_directory: bool,
    pub permission_bits: u32,
    pub modification_time: u64,
    pub content: Seq<u8>,
}

/// A failure of the container writer, with its message.
#[derive(Clone, Debug, PartialEq, Eq)]
pub enum ArchiveError {
    Append(String),
    Finish(String),
}

/// A tar writer over an in-memory buffer, kept in a private field.
#[verifier::external_body]
pub struct TarWriter {
    inner: tar::Builder<Vec<u8>>,
}

/// One tar entry as written: name, directory or not, mode, modification
/// time, contents.
pub type TarItem = (Seq<char>, bool, u32, u64, Seq<u8>);

/// The entries a tar writer has written so far, in order.
pub uninterp spec fn tar_items(w: TarWriter) -> Seq<TarItem>;

/// The bytes of a finished tar archive holding the given entries.
pub uninterp spec fn tar_bytes_of(items: Seq<TarItem>) -> Seq<u8>;

/// Whether position `i` of a name starts a `/`-separated component.
pub open spec fn starts_component(name: Seq<char>, i: int) -> bool {
    i == 0 || name[i - 1] == '/'
}

/// Whether a `..` component starts at position `i`.
pub open spec fn parent_component_at(name: Seq<char>, i: int) -> bool {
    &&& starts_component(name, i)
    &&& i + 1 < name.len()
    &&& name[i] == '.' && name[i + 1] == '.'
    &&& (i + 2 == name.len() || name[i + 2] == '/')
}

/// Names the tar writer always takes: relative (not starting with `/`),
/// without NUL, without a `..` component, and whose first component is a
/// plain name (not `.`). Names too long for the header go through the GNU
/// long-name extension.
pub open spec fn tar_name_ok(name: Seq<char>) -> bool {
    &&& name.len() > 0
    &&& name[0] != '/'
    &&& !(name[0] == '.' && (name.len() == 1 || name[1] == '/'))
    &&& forall|i: int| 0 <= i < name.len() ==> #[trigger] name[i] != '\0'
    &&& forall|i: int| 0 <= i < name.len() ==> !#[trigger] parent_component_at(name, i)
}

/// Relies on tar::Builder::new: wraps the writer and writes nothing yet.
#[verifier::external_body]
fn tar_builder_new() -> (r: TarWriter)
    ensures
        tar_items(r) == Seq::<TarItem>::empty(),
{
    TarWriter { inner: tar::Builder::new(Vec::new()) }
}

/// Relies on tar::Builder::append_data with a GNU header of the given size,
/// mode and modification time: a name that does not fit the header goes
/// through the GNU long-name extension; a refused name writes nothing.
#[verifier::external_body]
fn tar_append_file(b: &mut TarWriter, h: &ArchiveHeader, data: &Vec<u8>) -> (r: Result<(), String>)
    requires
        h.size_bytes == data@.len(),
    ensures
        tar_name_ok(h.path@) ==> r is Ok,
        r is Ok ==> tar_items(*final(b)) == tar_items(*old(b)).push(
            (h.path@, false, h.permission_bits, h.modification_time_epoch_seconds, data@),
        ),
        r is Err ==> tar_items(*final(b)) == tar_items(*old(b)),
{
    let mut header = tar::Header::new_gnu();
    header.set_size(h.size_bytes);
    header.set_mode(h.permission_bits);
    header.set_mtime(h.modification_time_epoch_seconds);
    b.inner.append_data(&mut header, h.path.as_str(), data.as_slice()).map_err(|e| e.to_string())
}

/// Relies on tar::Builder::append_data with an empty GNU directory header
/// of the given mode and modification time 0.
#[verifier::external_body]
fn tar_append_dir(b: &mut TarWriter, name: &String, mode: u32) -> (r: Result<(), String>)
    ensures
        tar_name_ok(name@) ==> r is Ok,
        r is Ok ==> tar_items(*final(b)) == tar_items(*old(b)).push(
            (name@, true, mode, 0u64, Seq::<u8>::empty()),
        ),
        r is Err ==> tar_items(*final(b)) == tar_items(*old(b)),
{
    let mut header = tar::Header::new_gnu();
    header.set_entry_type(tar::EntryType::Directory);
    header.set_size(0);
    header.set_mode(mode);
    b.inner.append_data(&mut header, name.as_str(), std::io::empty()).map_err(|e| e.to_string())
}

/// Relies on tar::Builder::into_inner: writes the end-of-archive blocks
/// into the buffer, which cannot fail, and hands the bytes back.
#[verifier::external_body]
fn tar_into_inner(b: TarWriter) -> (r: Result<Vec<u8>, String>)
    ensures
        r is Ok,
        r is Ok ==> r->Ok_0@ == tar_bytes_of(tar_items(b)),
{
    b.inner.into_inner().map_err(|e| e.to_string())
}

/// Permission bits given to directory markers.
pub const DIRECTORY_MODE: u32 = 0o755;

/// A container writer behind a single serialization point: appends take
/// `&mut self`, so they never interleave. Each gateway keeps a record of the
/// entries its writer accepted.
pub trait ArchiveGateway {
    /// The entries appended so far, in order.
    spec fn records(&self) -> Seq<ArchiveRecord>;

    /// Whether the writer is owed success on an entry of `size` bytes named
    /// `name`.
    spec fn accepts(&self, name: Seq<char>, size: nat) -> bool;

    /// Appends a file entry whose header announces exactly the bytes given.
    fn append_file(&mut self, header: &ArchiveHeader, data: &Vec<u8>) -> (r: Result<(), ArchiveError>)
        requires
            header.size_bytes == data@.len(),
        ensures
            old(self).accepts(header.path@, data@.len()) ==> r is Ok,
            match r {
                Ok(()) => {
                    &&& final(self).records() == old(self).records().push(
                        ArchiveRecord {
                            name: header.path@,
                            is_directory: false,
                            permission_bits: header.permission_bits,
                            modification_time: header.modification_time_epoch_seconds,
                            content: data@,
                        },
                    )
                    &&& forall|n: Seq<char>, s: nat|
                        n != header.path@ && old(self).accepts(n, s) ==> #[trigger] final(self).accepts(n, s)
                },
                Err(ArchiveError::Append(_)) => {
                    &&& final(self).records() == old(self).records()
                    &&& forall|n: Seq<char>, s: nat|
                        #[trigger] final(self).accepts(n, s) == old(self).accepts(n, s)
                },
                Err(_) => false,
            },
    ;

    /// Appends a directory marker; `name` ends with `/`.
    fn append_directory(&mut self, name: &String) -> (r: Result<(), ArchiveError>)
        requires
            name@.len() > 0 && name@.last() == '/',
        ensures
            old(self).accepts(name@, 0) ==> r is Ok,
            match r {
                Ok(()) => {
                    &&& final(self).records() == old(self).records().push(
                        ArchiveRecord {
                            name: name@,
                            is_directory: true,
                            permission_bits: DIRECTORY_MODE,
                            modification_time: 0,
                            content: Seq::empty(),
                        },
                    )
                    &&& forall|n: Seq<char>, s: nat|
                        n != name@ && old(self).accepts(n, s) ==> #[trigger] final(self).accepts(n, s)
                },
                Err(ArchiveError::Append(_)) => {
                    &&& final(self).records() == old(self).records()
                    &&& forall|n: Seq<char>, s: nat|
                        #[trigger] final(self).accepts(n, s) == old(self).accepts(n, s)
                },
                Err(_) => false,
            },
    ;
}

/// The record of a written tar entry.
pub open spec fn record_of_item(t: TarItem) -> ArchiveRecord {
    ArchiveRecord {
        name: t.0,
        is_directory: t.1,
        permission_bits: t.2,
        modification_time: t.3,
        content: t.4,
    }
}

/// The tar entry of a record.
pub open spec fn item_of_record(r: ArchiveRecord) -> TarItem {
    (r.name, r.is_directory, r.permission_bits, r.modification_time, r.content)
}

pub open spec fn items_of(rs: Seq<ArchiveRecord>) -> Seq<TarItem> {
    rs.map_values(|r: ArchiveRecord| item_of_record(r))
}

/// Serialized access to a tar writer.
pub struct TarGateway {
    writer: TarWriter,
}

impl ArchiveGateway for TarGateway {
    closed spec fn records(&self) -> Seq<ArchiveRecord> {
        tar_items(self.writer).map_values(|t: TarItem| record_of_item(t))
    }

    closed spec fn accepts(&self, name: Seq<char>, size: nat) -> bool {
        tar_name_ok(name)
    }

    fn append_file(&mut self, header: &ArchiveHeader, data: &Vec<u8>) -> (r: Result<(), ArchiveError>) {
        let ghost before = tar_items(self.writer);
        match tar_append_file(&mut self.writer, header, data) {
            Ok(()) => {
                assert(tar_items(self.writer).map_values(|t: TarItem| record_of_item(t))
                    =~= before.map_values(|t: TarItem| record_of_item(t)).push(
                    record_of_item((header.path@, false, header.permission_bits,
                        header.modification_time_epoch_seconds, data@)),
                ));
                Ok(())
            },
            Err(msg) => Err(ArchiveError::Append(msg)),
        }
    }

    fn append_directory(&mut self, name: &String) -> (r: Result<(), ArchiveError>) {
        let ghost before = tar_items(self.writer);
        match tar_append_dir(&mut self.writer, name, DIRECTORY_MODE) {
            Ok(()) => {
                assert(tar_items(self.writer).map_values(|t: TarItem| record_of_item(t))
                    =~= before.map_values(|t: TarItem| record_of_item(t)).push(
                    record_of_item((name@, true, DIRECTORY_MODE, 0u64, Seq::<u8>::empty())),
                ));
                Ok(())
            },
            Err(msg) => Err(ArchiveError::Append(msg)),
        }
    }
}

impl TarGateway {
    pub fn new() -> (r: Self)
        ensures
            r.records() == Seq::<ArchiveRecord>::empty(),
            forall|n: Seq<char>, s: nat| #[trigger] r.accepts(n, s) == tar_name_ok(n),
    {
        let r = TarGateway { writer: tar_builder_new() };
        assert(r.records() =~= Seq::<ArchiveRecord>::empty());
        r
    }

    /// Completes the archive and hands back its bytes, which are those of a
    /// tar archive of exactly the recorded entries. Taking the gateway by
    /// value, it runs once, after every append.
    pub fn finish(self) -> (r: Result<Vec<u8>, ArchiveError>)
        ensures
            r is Ok,
            r is Ok ==> r->Ok_0@ == tar_bytes_of(items_of(self.records())),
    {
        let ghost items = tar_items(self.writer);
        assert(items_of(self.records()) =~= items);
        match tar_into_inner(self.writer) {
            Ok(bytes) => Ok(bytes),
            Err(msg) => Err(ArchiveError::Finish(msg)),
        }
    }
}

/// A zip writer over an in-memory buffer, kept in a private field.
#[verifier::external_body]
pub struct ZipFileWriter {
    inner: zip::ZipWriter<std::io::Cursor<Vec<u8>>>,
}

/// The entries a zip writer holds, in order, each with the fields it was
/// handed (name, directory or not, mode, modification time, contents). The
/// writer stamps every entry with the fixed DOS epoch, 1980-01-01 00:00.
pub uninterp spec fn zip_items(z: ZipFileWriter) -> Seq<TarItem>;

/// The bytes of a finished zip archive holding the given entries.
pub uninterp spec fn zip_bytes_of(items: Seq<TarItem>) -> Seq<u8>;

/// Whether a zip writer holds an entry named `name`.
pub open spec fn zip_holds(items: Seq<TarItem>, name: Seq<char>) -> bool {
    exists|k: int| 0 <= k < items.len() && #[trigger] items[k].0 == name
}

/// Longest entry name, in characters, handed to the zip writer: its byte
/// length then fits the format's 16-bit field.
pub const ZIP_NAME_LIMIT: u64 = 4096;

/// Largest entry, in bytes, handed to the zip writer: its compressed size
/// then stays under 4 GiB, so no large-file option is needed.
pub const ZIP_SIZE_LIMIT: u64 = 0xF000_0000;

/// Relies on zip::ZipWriter::new over an empty in-memory cursor.
#[verifier::external_body]
fn zip_writer_new() -> (r: ZipFileWriter)
    ensures
        zip_items(r) == Seq::<TarItem>::empty(),
{
    ZipFileWriter { inner: zip::ZipWriter::new(std::io::Cursor::new(Vec::new())) }
}

/// Relies on zip::ZipWriter::start_file with deflate compression, the given
/// Unix mode and the default (DOS epoch) timestamp, then
/// std::io::Write::write_all of the contents. A duplicate name is refused
/// before anything is written.
#[verifier::external_body]
fn zip_append_file(z: &mut ZipFileWriter, h: &ArchiveHeader, data: &Vec<u8>) -> (r: Result<(), String>)
    requires
        h.path@.len() <= ZIP_NAME_LIMIT,
        data@.len() <= ZIP_SIZE_LIMIT,
    ensures
        !zip_holds(zip_items(*old(z)), h.path@) ==> r is Ok,
        r is Ok ==> zip_items(*final(z)) == zip_items(*old(z)).push(
            (h.path@, false, h.permission_bits, h.modification_time_epoch_seconds, data@),
        ),
        r is Err ==> zip_items(*final(z)) == zip_items(*old(z)),
{
    let options = zip::write::SimpleFileOptions::default()
        .compression_method(zip::CompressionMethod::Deflated)
        .last_modified_time(zip::DateTime::default())
        .unix_permissions(h.permission_bits);
    z.inner.start_file(h.path.as_str(), options).map_err(|e| e.to_string())?;
    std::io::Write::write_all(&mut z.inner, data.as_slice()).map_err(|e| e.to_string())
}

/// Relies on zip::ZipWriter::add_directory with the given Unix mode and the
/// default (DOS epoch) timestamp; the name already ends with `/`, so it is
/// stored as given.
#[verifier::external_body]
fn zip_append_dir(z: &mut ZipFileWriter, name: &String, mode: u32) -> (r: Result<(), String>)
    requires
        name@.len() > 0 && name@.last() == '/',
        name@.len() <= ZIP_NAME_LIMIT,
    ensures
        !zip_holds(zip_items(*old(z)), name@) ==> r is Ok,
        r is Ok ==> zip_items(*final(z)) == zip_items(*old(z)).push(
            (name@, true, mode, 0u64, Seq::<u8>::empty()),
        ),
        r is Err ==> zip_items(*final(z)) == zip_items(*old(z)),
{
    let options = zip::write::SimpleFileOptions::default()
        .last_modified_time(zip::DateTime::default())
        .unix_permissions(mode);
    z.inner.add_directory(name.as_str(), options).map_err(|e| e.to_string())
}

/// Relies on zip::ZipWriter::finish: writes the central directory into the
/// buffer and hands it back; with every entry within the limits above this
/// cannot fail.
#[verifier::external_body]
fn zip_finish(z: ZipFileWriter) -> (r: Result<Vec<u8>, String>)
    ensures
        r is Ok,
        r is Ok ==> r->Ok_0@ == zip_bytes_of(zip_items(z)),
{
    z.inner.finish().map(|c| c.into_inner()).map_err(|e| e.to_string())
}

/// Serialized access to a zip writer. Names and sizes beyond the limits
/// above are refused before they reach the writer.
pub struct ZipGateway {
    writer: ZipFileWriter,
}

impl ArchiveGateway for ZipGateway {
    closed spec fn records(&self) -> Seq<ArchiveRecord> {
        zip_items(self.writer).map_values(|t: TarItem| record_of_item(t))
    }

    closed spec fn accepts(&self, name: Seq<char>, size: nat) -> bool {
        !zip_holds(zip_items(self.writer), name) && name.len() <= ZIP_NAME_LIMIT && size <= ZIP_SIZE_LIMIT
    }

    fn append_file(&mut self, header: &ArchiveHeader, data: &Vec<u8>) -> (r: Result<(), ArchiveError>) {
        if header.path.as_str().unicode_len() as u64 > ZIP_NAME_LIMIT {
            return Err(ArchiveError::Append(String::from_str("name too long for a zip entry")));
        }
        if data.len() as u64 > ZIP_SIZE_LIMIT {
            return Err(ArchiveError::Append(String::from_str("file too large for a zip entry")));
        }
        let ghost before = zip_items(self.writer);
        match zip_append_file(&mut self.writer, header, data) {
            Ok(()) => {
                let ghost item = (header.path@, false, header.permission_bits,
                    header.modification_time_epoch_seconds, data@);
                assert(zip_items(self.writer).map_values(|t: TarItem| record_of_item(t))
                    =~= before.map_values(|t: TarItem| record_of_item(t)).push(record_of_item(item)));
                assert forall|n: Seq<char>|
                    n != header.path@ && !zip_holds(before, n) implies !#[trigger] zip_holds(zip_items(self.writer), n) by {
                    if zip_holds(zip_items(self.writer), n) {
                        let k = choose|k: int| 0 <= k < zip_items(self.writer).len()
                            && #[trigger] zip_items(self.writer)[k].0 == n;
                        assert(k < before.len());
                        assert(before[k].0 == n);
                    }
                }
                Ok(())
            },
            Err(msg) => Err(ArchiveError::Append(msg)),
        }
    }

    fn append_directory(&mut self, name: &String) -> (r: Result<(), ArchiveError>) {
        if name.as_str().unicode_len() as u64 > ZIP_NAME_LIMIT {
            return Err(ArchiveError::Append(String::from_str("name too long for a zip entry")));
        }
        let ghost before = zip_items(self.writer);
        match zip_append_dir(&mut self.writer, name, DIRECTORY_MODE) {
            Ok(()) => {
                let ghost item = (name@, true, DIRECTORY_MODE, 0u64, Seq::<u8>::empty());
                assert(zip_items(self.writer).map_values(|t: TarItem| record_of_item(t))
                    =~= before.map_values(|t: TarItem| record_of_item(t)).push(record_of_item(item)));
                assert forall|n: Seq<char>|
                    n != name@ && !zip_holds(before, n) implies !#[trigger] zip_holds(zip_items(self.writer), n) by {
                    if zip_holds(zip_items(self.writer), n) {
                        let k = choose|k: int| 0 <= k < zip_items(self.writer).len()
                            && #[trigger] zip_items(self.writer)[k].0 == n;
                        assert(k < before.len());
                        assert(before[k].0 == n);
                    }
                }
                Ok(())
            },
            Err(msg) => Err(ArchiveError::Append(msg)),
        }
    }
}

impl ZipGateway {
    pub fn new() -> (r: Self)
        ensures
            r.records() == Seq::<ArchiveRecord>::empty(),
            forall|n: Seq<char>, s: nat| #[trigger] r.accepts(n, s) == (n.len() <= ZIP_NAME_LIMIT
                && s <= ZIP_SIZE_LIMIT),
    {
        let r = ZipGateway { writer: zip_writer_new() };
        assert(r.records() =~= Seq::<ArchiveRecord>::empty());
        r
    }

    /// Completes the archive and hands back its bytes, which are those of a
    /// zip archive of exactly the recorded entries. Taking the gateway by
    /// value, it runs once, after every append.
    pub fn finish(self) -> (r: Result<Vec<u8>, ArchiveError>)
        ensures
            r is Ok,
            r is Ok ==> r->Ok_0@ == zip_bytes_of(items_of(self.records())),
    {
        let ghost items = zip_items(self.writer);
        assert(items_of(self.records()) =~= items);
        match zip_finish(self.writer) {
            Ok(bytes) => Ok(bytes),
            Err(msg) => Err(ArchiveError::Finish(msg)),
        }
    }
}

} // verus!
