//! Per-entry processing: builds the header, checks the buffered contents
//! against it, appends through the gateway and reports progress.

use vstd::prelude::*;
use vstd::string::*;
use crate::entry::{comps, counts_progress, Entry, EntryKind};
use crate::gateway::{ArchiveError, ArchiveGateway, ArchiveHeader, ArchiveRecord, DIRECTORY_MODE};
use vstd::utf8::encode_utf8;
use crate::progress::CompressionProgress;

verus! {

/// Path components joined by `/`.
pub open spec fn joined(rel: Seq<Seq<char>>) -> Seq<char>
    decreases rel.len(),
{
    if rel.len() == 0 {
        seq![]
    } else if rel.len() == 1 {
        rel[0]
    } else {
        joined(rel.drop_last()) + seq!['/'] + rel.last()
    }
}

/// The name of an entry inside the archive; directories end with `/`.
pub open spec fn name_in_archive(rel: Seq<Seq<char>>, is_directory: bool) -> Seq<char> {
    if is_directory {
        joined(rel).push('/')
    } else {
        joined(rel)
    }
}

/// Builds the name of an entry inside the archive from its relative path.
pub fn archive_name(rel: &Vec<String>, is_directory: bool) -> (r: String)
    ensures
        r@ == name_in_archive(comps(rel@), is_directory),
{
    let mut s = String::new();
    let mut i: usize = 0;
    while i < rel.len()
        invariant
            i <= rel.len(),
            s@ == joined(comps(rel@).take(i as int)),
        decreases rel.len() - i,
    {
        let ghost prefix = comps(rel@).take(i as int);
        let ghost next = comps(rel@).take(i + 1);
        assert(next.drop_last() =~= prefix);
        assert(next.len() == i + 1);
        assert(next.last() == rel@[i as int]@);
        let ghost before = s@;
        if i > 0 {
            s.append("/");
            proof { reveal_strlit("/"); }
        }
        s.append(rel[i].as_str());
        if i == 0 {
            assert(before =~= seq![]);
            assert(s@ =~= next[0]);
        } else {
            assert(s@ =~= joined(prefix) + seq!['/'] + next.last());
        }
        assert(s@ =~= joined(comps(rel@).take(i + 1)));
        i = i + 1;
    }
    assert(comps(rel@).take(rel.len() as int) =~= comps(rel@));
    if is_directory {
        s.append("/");
        proof { reveal_strlit("/"); }
    }
    assert(s@ =~= name_in_archive(comps(rel@), is_directory));
    s
}

/// What was read of a file from disk.
#[derive(Clone, Debug)]
pub struct FileData {
    /// Size according to the file's metadata, taken before reading.
    pub size_bytes: u64,
    pub permission_bits: u32,
    pub modification_time_epoch_seconds: u64,
    /// The whole contents, as read.
    pub contents: Vec<u8>,
}

/// Why one entry was left out of the archive. None of these stops a run.
#[derive(Clone, Debug, PartialEq, Eq)]
pub enum EntryError {
    /// The file could not be opened or read.
    Unreadable,
    /// The bytes read differ in length from the size the metadata gave.
    SizeMismatch { expected: u64, actual: u64 },
    /// The container writer refused the entry.
    Archive(ArchiveError),
}

/// Whether processing an entry of this kind leaves it out with `e`
/// whatever the container writer does.
pub open spec fn rejected_before_append(file: Option<FileData>, e: EntryError) -> bool {
    match file {
        None => e == EntryError::Unreadable,
        Some(f) => f.size_bytes != f.contents@.len() && e == (EntryError::SizeMismatch {
            expected: f.size_bytes,
            actual: f.contents@.len() as u64,
        }),
    }
}

/// Whether the name does not fit a tar header's 100-byte name field, so
/// that the writer stores it through the long-name extension.
pub open spec fn long_name(name: Seq<char>) -> bool {
    (encode_utf8(name).len() as usize) > TAR_NAME_FIELD_BYTES
}

pub const TAR_NAME_FIELD_BYTES: usize = 100;

/// Tells whether a name needs the long-name extension, for a warning.
pub fn needs_long_name(name: &String) -> (r: bool)
    ensures
        r == long_name(name@),
{
    let s = name.as_str();
    assert(s.spec_bytes() == encode_utf8(name@));
    s.len() > TAR_NAME_FIELD_BYTES
}

/// The record a file appended under `rel` leaves.
pub open spec fn file_record(rel: Seq<Seq<char>>, f: FileData) -> ArchiveRecord {
    ArchiveRecord {
        name: name_in_archive(rel, false),
        is_directory: false,
        permission_bits: f.permission_bits,
        modification_time: f.modification_time_epoch_seconds,
        content: f.contents@,
    }
}

/// The record a directory marker for `rel` leaves.
pub open spec fn directory_record(rel: Seq<Seq<char>>) -> ArchiveRecord {
    ArchiveRecord {
        name: name_in_archive(rel, true),
        is_directory: true,
        permission_bits: DIRECTORY_MODE,
        modification_time: 0,
        content: Seq::empty(),
    }
}

/// Processes one file entry. The file counts as done whether or not it made
/// it into the archive. A file read in full whose name the gateway accepts
/// is appended.
pub fn process_tar_file<G: ArchiveGateway>(
    rel: &Vec<String>,
    file: &Option<FileData>,
    gateway: &mut G,
    progress: &mut CompressionProgress,
    now_micros: u64,
) -> (r: Result<(), EntryError>)
    requires
        old(progress).wf(),
        old(progress).completed < old(progress).total_files,
    ensures
        final(progress).wf(),
        *final(progress) == old(progress).after_increment(now_micros),
        (file matches Some(f) && f.size_bytes == f.contents@.len() && old(gateway).accepts(
            name_in_archive(comps(rel@), false),
            f.contents@.len(),
        )) ==> r is Ok,
        match r {
            Ok(()) => {
                &&& file matches Some(f) && f.size_bytes == f.contents@.len()
                    && final(gateway).records() == old(gateway).records().push(
                    file_record(comps(rel@), *f),
                )
                &&& forall|n: Seq<char>, s: nat|
                    n != name_in_archive(comps(rel@), false) && old(gateway).accepts(n, s)
                        ==> #[trigger] final(gateway).accepts(n, s)
            },
            Err(e) => {
                &&& final(gateway).records() == old(gateway).records()
                &&& forall|n: Seq<char>, s: nat|
                    #[trigger] final(gateway).accepts(n, s) == old(gateway).accepts(n, s)
                &&& match e {
                    EntryError::Archive(a) => a matches ArchiveError::Append(_) && file matches Some(f)
                        && f.size_bytes == f.contents@.len(),
                    _ => rejected_before_append(*file, e),
                }
            },
        },
        file.is_none() ==> r == Err::<(), EntryError>(EntryError::Unreadable),
        (file matches Some(f) && f.size_bytes != f.contents@.len()) ==> r matches Err(
            EntryError::SizeMismatch { .. },
        ),
{
    let result = match file {
        None => Err(EntryError::Unreadable),
        Some(f) => {
            let actual: u64 = f.contents.len() as u64;
            if f.size_bytes != actual {
                Err(EntryError::SizeMismatch { expected: f.size_bytes, actual })
            } else {
                let header = ArchiveHeader {
                    path: archive_name(rel, false),
                    size_bytes: f.size_bytes,
                    permission_bits: f.permission_bits,
                    modification_time_epoch_seconds: f.modification_time_epoch_seconds,
                };
                match gateway.append_file(&header, &f.contents) {
                    Ok(()) => Ok(()),
                    Err(e) => Err(EntryError::Archive(e)),
                }
            }
        },
    };
    progress.increment_total_progress(now_micros);
    result
}

/// Processes one directory entry: appends its marker, and counts it as done
/// only when it is empty. A marker whose name the gateway accepts is
/// appended.
pub fn process_tar_directory<G: ArchiveGateway>(
    rel: &Vec<String>,
    kind: EntryKind,
    gateway: &mut G,
    progress: &mut CompressionProgress,
    now_micros: u64,
) -> (r: Result<(), EntryError>)
    requires
        kind != EntryKind::File,
        old(progress).wf(),
        kind == EntryKind::EmptyDirectory ==> old(progress).completed < old(progress).total_files,
    ensures
        final(progress).wf(),
        *final(progress) == if kind == EntryKind::EmptyDirectory {
            old(progress).after_increment(now_micros)
        } else {
            *old(progress)
        },
        old(gateway).accepts(name_in_archive(comps(rel@), true), 0) ==> r is Ok,
        match r {
            Ok(()) => {
                &&& final(gateway).records() == old(gateway).records().push(
                    directory_record(comps(rel@)),
                )
                &&& forall|n: Seq<char>, s: nat|
                    n != name_in_archive(comps(rel@), true) && old(gateway).accepts(n, s)
                        ==> #[trigger] final(gateway).accepts(n, s)
            },
            Err(e) => {
                &&& e matches EntryError::Archive(ArchiveError::Append(_))
                &&& final(gateway).records() == old(gateway).records()
                &&& forall|n: Seq<char>, s: nat|
                    #[trigger] final(gateway).accepts(n, s) == old(gateway).accepts(n, s)
            },
        },
{
    let name = archive_name(rel, true);
    assert(name@.last() == '/');
    let result = match gateway.append_directory(&name) {
        Ok(()) => Ok(()),
        Err(e) => Err(EntryError::Archive(e)),
    };
    if kind == EntryKind::EmptyDirectory {
        progress.increment_total_progress(now_micros);
    }
    result
}

} // verus!
