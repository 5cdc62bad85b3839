//! Output formats: the container and the compression codec applied to it.

use vstd::prelude::*;
use vstd::string::*;
use crate::gateway::ArchiveError;
use crate::gateway::{items_of, tar_bytes_of, zip_bytes_of};
use crate::pipeline::{
    build_tar_archive, build_zip_archive, distinct_names, increments_of, outcome_fits, read_in_full,
    records_of, tar_names_ok, zip_sizes_ok, LoadedEntry, RunReport,
};
use crate::progress::CompressionProgress;

verus! {

/// The archive formats offered.
#[derive(Clone, Copy, Debug, PartialEq, Eq, Structural)]
pub enum Format {
    TarGz,
    TarBz2,
    TarXz,
    TarZstd,
    Zip,
}

/// The gzip stream (default level) of the given bytes.
pub uninterp spec fn gzip_of(data: Seq<u8>) -> Seq<u8>;

/// The bzip2 stream (default level) of the given bytes.
pub uninterp spec fn bzip2_of(data: Seq<u8>) -> Seq<u8>;

/// The xz stream (preset 6) of the given bytes.
pub uninterp spec fn xz_of(data: Seq<u8>) -> Seq<u8>;

/// The zstd frame (level 3) of the given bytes.
pub uninterp spec fn zstd_of(data: Seq<u8>) -> Seq<u8>;

/// Relies on flate2::write::GzEncoder with the default level, fed the whole
/// input and finished: writing into a buffer cannot fail, and the stream
/// depends on the input alone.
#[verifier::external_body]
fn gzip_encode(data: &Vec<u8>) -> (r: Result<Vec<u8>, String>)
    ensures
        r is Ok,
        r is Ok ==> r->Ok_0@ == gzip_of(data@),
{
    let mut e = flate2::write::GzEncoder::new(Vec::new(), flate2::Compression::default());
    std::io::Write::write_all(&mut e, data.as_slice()).map_err(|e| e.to_string())?;
    e.finish().map_err(|e| e.to_string())
}

/// Relies on bzip2::write::BzEncoder with the default level, fed the whole
/// input and finished.
#[verifier::external_body]
fn bzip2_encode(data: &Vec<u8>) -> (r: Result<Vec<u8>, String>)
    ensures
        r is Ok,
        r is Ok ==> r->Ok_0@ == bzip2_of(data@),
{
    let mut e = bzip2::write::BzEncoder::new(Vec::new(), bzip2::Compression::default());
    std::io::Write::write_all(&mut e, data.as_slice()).map_err(|e| e.to_string())?;
    e.finish().map_err(|e| e.to_string())
}

/// Relies on xz2::write::XzEncoder at preset 6, fed the whole input and
/// finished.
#[verifier::external_body]
fn xz_encode(data: &Vec<u8>) -> (r: Result<Vec<u8>, String>)
    ensures
        r is Ok,
        r is Ok ==> r->Ok_0@ == xz_of(data@),
{
    let mut e = xz2::write::XzEncoder::new(Vec::new(), 6);
    std::io::Write::write_all(&mut e, data.as_slice()).map_err(|e| e.to_string())?;
    e.finish().map_err(|e| e.to_string())
}

/// Relies on zstd::stream::encode_all at level 3.
#[verifier::external_body]
fn zstd_encode(data: &Vec<u8>) -> (r: Result<Vec<u8>, String>)
    ensures
        r is Ok,
        r is Ok ==> r->Ok_0@ == zstd_of(data@),
{
    zstd::stream::encode_all(data.as_slice(), 3).map_err(|e| e.to_string())
}

/// The bytes written for a finished container in the given format: a tar
/// archive goes through the format's codec, a zip archive is stored as is.
pub open spec fn sink_output(f: Format, archive: Seq<u8>) -> Seq<u8> {
    match f {
        Format::TarGz => gzip_of(archive),
        Format::TarBz2 => bzip2_of(archive),
        Format::TarXz => xz_of(archive),
        Format::TarZstd => zstd_of(archive),
        Format::Zip => archive,
    }
}

/// A fatal failure of a run.
#[derive(Clone, Debug, PartialEq, Eq)]
pub enum EncodeError {
    /// The container writer failed.
    Archive(ArchiveError),
    /// The compression codec failed.
    Codec(String),
}

/// Passes a finished container through the format's codec.
pub fn encode_container(format: Format, archive: Vec<u8>) -> (r: Result<Vec<u8>, String>)
    ensures
        r matches Ok(v) && v@ == sink_output(format, archive@),
{
    match format {
        Format::TarGz => gzip_encode(&archive),
        Format::TarBz2 => bzip2_encode(&archive),
        Format::TarXz => xz_encode(&archive),
        Format::TarZstd => zstd_encode(&archive),
        Format::Zip => Ok(archive),
    }
}

/// Builds the archive of the loaded entries in the given format and encodes
/// it. `archive` of the report holds the bytes to write out: for a tar
/// format, the codec's stream of a tar archive of exactly the entries whose
/// outcome is `Ok`; for zip, a zip archive of exactly those entries.
pub fn encode_archive(
    format: Format,
    loaded: &Vec<LoadedEntry>,
    progress: &mut CompressionProgress,
    clock: &std::time::Instant,
) -> (r: Result<RunReport, EncodeError>)
    requires
        old(progress).wf(),
        old(progress).completed + increments_of(loaded@) <= old(progress).total_files,
    ensures
        final(progress).wf(),
        final(progress).completed == old(progress).completed + increments_of(loaded@),
        final(progress).total_files == old(progress).total_files,
        match r {
            Ok(report) => {
                &&& report.outcomes@.len() == loaded@.len()
                &&& forall|i: int| 0 <= i < loaded@.len() ==> outcome_fits(loaded@[i], #[trigger] report.outcomes@[i])
                &&& format != Format::Zip ==> report.archive@ == sink_output(
                    format,
                    tar_bytes_of(items_of(records_of(loaded@, report.outcomes@))),
                )
                &&& format == Format::Zip ==> report.archive@ == zip_bytes_of(
                    items_of(records_of(loaded@, report.outcomes@)),
                )
                &&& (format != Format::Zip && tar_names_ok(loaded@) && distinct_names(loaded@)) ==> forall|i: int|
                    0 <= i < loaded@.len() && read_in_full(loaded@[i]) ==> #[trigger] report.outcomes@[i] is Ok
                &&& (format == Format::Zip && zip_sizes_ok(loaded@) && distinct_names(loaded@)) ==> forall|i: int|
                    0 <= i < loaded@.len() && read_in_full(loaded@[i]) ==> #[trigger] report.outcomes@[i] is Ok
            },
            Err(_) => false,
        },
{
    let built = if format == Format::Zip {
        build_zip_archive(loaded, progress, clock)
    } else {
        build_tar_archive(loaded, progress, clock)
    };
    match built {
        Err(e) => Err(EncodeError::Archive(e)),
        Ok(report) => {
            let RunReport { archive, outcomes } = report;
            match encode_container(format, archive) {
                Ok(bytes) => Ok(RunReport { archive: bytes, outcomes }),
                Err(msg) => Err(EncodeError::Codec(msg)),
            }
        },
    }
}

/// The command-line name of each format.
pub open spec fn format_named(name: Seq<char>) -> Option<Format> {
    if name == "tar-gz"@ {
        Some(Format::TarGz)
    } else if name == "tar-bz2"@ {
        Some(Format::TarBz2)
    } else if name == "tar-xz"@ {
        Some(Format::TarXz)
    } else if name == "tar-zstd"@ {
        Some(Format::TarZstd)
    } else if name == "zip"@ {
        Some(Format::Zip)
    } else {
        None
    }
}

/// Reads a format from its command-line name.
pub fn parse_format(name: &String) -> (r: Option<Format>)
    ensures
        r == format_named(name@),
{
    if *name == String::from_str("tar-gz") {
        Some(Format::TarGz)
    } else if *name == String::from_str("tar-bz2") {
        Some(Format::TarBz2)
    } else if *name == String::from_str("tar-xz") {
        Some(Format::TarXz)
    } else if *name == String::from_str("tar-zstd") {
        Some(Format::TarZstd)
    } else if *name == String::from_str("zip") {
        Some(Format::Zip)
    } else {
        None
    }
}

/// The file-name suffix of each format.
pub open spec fn suffix_of(f: Format) -> Seq<char> {
    match f {
        Format::TarGz => ".tar.gz"@,
        Format::TarBz2 => ".tar.bz"@,
        Format::TarXz => ".tar.xz"@,
        Format::TarZstd => ".tar.zst"@,
        Format::Zip => ".zip"@,
    }
}

/// The output file name: the base name the user gave, with the format's
/// suffix.
pub fn output_file_name(base: &String, format: Format) -> (r: String)
    ensures
        r@ == base@ + suffix_of(format),
{
    let suffix = match format {
        Format::TarGz => ".tar.gz",
        Format::TarBz2 => ".tar.bz",
        Format::TarXz => ".tar.xz",
        Format::TarZstd => ".tar.zst",
        Format::Zip => ".zip",
    };
    let mut s = base.clone();
    s.append(suffix);
    s
}

} // verus!
