//! A whole run: every entry processed in turn through one gateway, then the
//! archive finished once.

use vstd::prelude::*;
use crate::entry::{comps, entry_models, progress_units, selected, Entry, EntryKind, EntryModel};
use crate::gateway::{
    items_of, tar_bytes_of, tar_name_ok, zip_bytes_of, ArchiveError, ArchiveGateway, ArchiveRecord, TarGateway,
    ZipGateway, ZIP_NAME_LIMIT, ZIP_SIZE_LIMIT,
};
use crate::processing::{
    directory_record, file_record, name_in_archive, process_tar_directory, process_tar_file,
    rejected_before_append, EntryError, FileData,
};
use crate::progress::CompressionProgress;

verus! {

/// std::time::Instant, carried as an opaque origin of the run's clock.
#[verifier::external_type_specification]
#[verifier::external_body]
pub struct ExInstant(std::time::Instant);

/// Relies on std::time::Instant::elapsed: microseconds since `origin` on the
/// monotonic clock, saturated to `u64`. Nothing is promised of the value.
#[verifier::external_body]
fn elapsed_micros(origin: &std::time::Instant) -> (r: u64) {
    u64::try_from(origin.elapsed().as_micros()).unwrap_or(u64::MAX)
}

/// An entry together with what was read of it (nothing for a directory, or
/// for a file that could not be read).
#[derive(Clone, Debug)]
pub struct LoadedEntry {
    pub entry: Entry,
    pub file: Option<FileData>,
}

/// How many of the entries count as a unit of progress when processed.
pub open spec fn increments_of(es: Seq<LoadedEntry>) -> nat
    decreases es.len(),
{
    if es.len() == 0 {
        0
    } else {
        increments_of(es.drop_last()) + if es.last().entry.kind != EntryKind::NonEmptyDirectory {
            1nat
        } else {
            0nat
        }
    }
}

/// The record that a successfully appended entry leaves in the archive.
pub open spec fn record_of(l: LoadedEntry) -> ArchiveRecord {
    if l.entry.kind == EntryKind::File {
        file_record(comps(l.entry.relative@), l.file.unwrap())
    } else {
        directory_record(comps(l.entry.relative@))
    }
}

/// Whether an entry is ready to append: a directory, or a file read in
/// full with the size its metadata gave.
pub open spec fn read_in_full(l: LoadedEntry) -> bool {
    l.entry.kind != EntryKind::File || (l.file matches Some(f) && f.size_bytes == f.contents@.len())
}

/// Whether a gateway accepts every entry of a run under its name.
pub open spec fn accepts_all<G: ArchiveGateway>(g: G, es: Seq<LoadedEntry>) -> bool {
    forall|i: int| 0 <= i < es.len() ==> #[trigger] g.accepts(record_of(es[i]).name, record_of(es[i]).content.len())
}

/// The records left by a run, in order: one for each entry whose outcome is
/// `Ok`.
pub open spec fn records_of(es: Seq<LoadedEntry>, outcomes: Seq<Result<(), EntryError>>) -> Seq<
    ArchiveRecord,
>
    decreases es.len(),
{
    if es.len() == 0 || outcomes.len() != es.len() {
        seq![]
    } else {
        let rest = records_of(es.drop_last(), outcomes.drop_last());
        if outcomes.last() is Ok {
            rest.push(record_of(es.last()))
        } else {
            rest
        }
    }
}

/// What the outcome of one entry can be: a file succeeds only with its
/// bytes read in full, is refused before the writer when unreadable or of
/// the wrong length, and otherwise is up to the writer.
pub open spec fn outcome_fits(l: LoadedEntry, r: Result<(), EntryError>) -> bool {
    if l.entry.kind == EntryKind::File {
        match r {
            Ok(()) => l.file matches Some(f) && f.size_bytes == f.contents@.len(),
            Err(EntryError::Archive(_)) => l.file matches Some(f) && f.size_bytes
                == f.contents@.len(),
            Err(e) => rejected_before_append(l.file, e),
        }
    } else {
        r matches Ok(()) || r matches Err(EntryError::Archive(_))
    }
}

/// Processes every entry in order through `gateway`. A failing entry is
/// reported in its outcome and the run goes on. When the gateway accepts
/// every entry's name and the names are distinct, every entry read in full
/// is appended.
pub fn process_tar_entries<G: ArchiveGateway>(
    loaded: &Vec<LoadedEntry>,
    gateway: &mut G,
    progress: &mut CompressionProgress,
    clock: &std::time::Instant,
) -> (outcomes: Vec<Result<(), EntryError>>)
    requires
        old(progress).wf(),
        old(progress).completed + increments_of(loaded@) <= old(progress).total_files,
    ensures
        final(progress).wf(),
        final(progress).completed == old(progress).completed + increments_of(loaded@),
        final(progress).total_files == old(progress).total_files,
        outcomes@.len() == loaded@.len(),
        forall|i: int| 0 <= i < loaded@.len() ==> outcome_fits(loaded@[i], #[trigger] outcomes@[i]),
        final(gateway).records() == old(gateway).records() + records_of(loaded@, outcomes@),
        (accepts_all(*old(gateway), loaded@) && distinct_names(loaded@)) ==> forall|i: int|
            0 <= i < loaded@.len() && read_in_full(loaded@[i]) ==> #[trigger] outcomes@[i] is Ok,
{
    let ghost all_ok = accepts_all(*gateway, loaded@) && distinct_names(loaded@);
    let mut outcomes: Vec<Result<(), EntryError>> = Vec::new();
    let mut i: usize = 0;
    while i < loaded.len()
        invariant
            i <= loaded@.len(),
            outcomes@.len() == i,
            progress.wf(),
            progress.total_files == old(progress).total_files,
            progress.completed == old(progress).completed + increments_of(loaded@.take(i as int)),
            old(progress).completed + increments_of(loaded@) <= old(progress).total_files,
            forall|j: int| 0 <= j < i ==> outcome_fits(loaded@[j], #[trigger] outcomes@[j]),
            gateway.records() == old(gateway).records() + records_of(
                loaded@.take(i as int),
                outcomes@,
            ),
            all_ok == (accepts_all(*old(gateway), loaded@) && distinct_names(loaded@)),
            all_ok ==> forall|j: int| i <= j < loaded@.len() ==> #[trigger] gateway.accepts(
                record_of(loaded@[j]).name,
                record_of(loaded@[j]).content.len(),
            ),
            all_ok ==> forall|j: int|
                0 <= j < i && read_in_full(loaded@[j]) ==> #[trigger] outcomes@[j] is Ok,
        decreases loaded@.len() - i,
    {
        let ghost done = loaded@.take(i as int);
        let ghost next = loaded@.take(i + 1);
        assert(next.drop_last() =~= done);
        proof {
            lemma_increments_prefix(loaded@, i + 1);
        }
        let ghost records_before = gateway.records();
        let ghost g_before = *gateway;
        let now = elapsed_micros(clock);
        let item = &loaded[i];
        let r = if item.entry.kind == EntryKind::File {
            process_tar_file(&item.entry.relative, &item.file, gateway, progress, now)
        } else {
            process_tar_directory(&item.entry.relative, item.entry.kind, gateway, progress, now)
        };
        let ghost outs_before = outcomes@;
        outcomes.push(r);
        assert(outcomes@.drop_last() =~= outs_before);
        assert(next.last() == loaded@[i as int]);
        proof {
            if r is Ok {
                assert(gateway.records() =~= records_before.push(record_of(loaded@[i as int])));
            }
            if all_ok {
                assert forall|j: int| i + 1 <= j < loaded@.len() implies #[trigger] gateway.accepts(
                    record_of(loaded@[j]).name,
                    record_of(loaded@[j]).content.len(),
                ) by {
                    assert(g_before.accepts(record_of(loaded@[j]).name, record_of(loaded@[j]).content.len()));
                    assert(record_of(loaded@[i as int]).name != record_of(loaded@[j]).name);
                }
                assert(g_before.accepts(
                    record_of(loaded@[i as int]).name,
                    record_of(loaded@[i as int]).content.len(),
                ));
                assert forall|j: int| 0 <= j < i + 1 && read_in_full(loaded@[j]) implies #[trigger] outcomes@[j] is Ok by {
                    if j < i {
                        assert(outcomes@[j] == outs_before[j]);
                    }
                }
            }
        }
        assert(gateway.records() =~= old(gateway).records() + records_of(next, outcomes@));
        i = i + 1;
    }
    assert(loaded@.take(loaded@.len() as int) =~= loaded@);
    outcomes
}

proof fn lemma_increments_prefix(es: Seq<LoadedEntry>, n: int)
    requires
        0 <= n <= es.len(),
    ensures
        increments_of(es.take(n)) <= increments_of(es),
    decreases es.len(),
{
    if n < es.len() {
        assert(es.drop_last().take(n) =~= es.take(n));
        lemma_increments_prefix(es.drop_last(), n);
    } else {
        assert(es.take(n) =~= es);
    }
}

/// What a finished run hands back.
#[derive(Debug)]
pub struct RunReport {
    /// The finished tar archive.
    pub archive: Vec<u8>,
    /// One outcome per entry, in the order given.
    pub outcomes: Vec<Result<(), EntryError>>,
}

/// Builds a tar archive of the loaded entries: every entry goes through one
/// gateway, which is finished once, after the last append. The archive
/// holds exactly the entries whose outcome is `Ok`, in order; with distinct
/// names that tar takes, that is every entry read in full.
pub fn build_tar_archive(
    loaded: &Vec<LoadedEntry>,
    progress: &mut CompressionProgress,
    clock: &std::time::Instant,
) -> (r: Result<RunReport, ArchiveError>)
    requires
        old(progress).wf(),
        old(progress).completed + increments_of(loaded@) <= old(progress).total_files,
    ensures
        final(progress).wf(),
        final(progress).completed == old(progress).completed + increments_of(loaded@),
        final(progress).total_files == old(progress).total_files,
        match r {
            Ok(report) => {
                &&& report.outcomes@.len() == loaded@.len()
                &&& forall|i: int| 0 <= i < loaded@.len() ==> outcome_fits(loaded@[i], #[trigger] report.outcomes@[i])
                &&& report.archive@ == tar_bytes_of(items_of(records_of(loaded@, report.outcomes@)))
                &&& (tar_names_ok(loaded@) && distinct_names(loaded@)) ==> forall|i: int|
                    0 <= i < loaded@.len() && read_in_full(loaded@[i]) ==> #[trigger] report.outcomes@[i] is Ok
            },
            Err(_) => false,
        },
{
    let mut gateway = TarGateway::new();
    let ghost fresh = gateway;
    let outcomes = process_tar_entries(loaded, &mut gateway, progress, clock);
    assert(gateway.records() =~= records_of(loaded@, outcomes@));
    proof {
        if tar_names_ok(loaded@) {
            assert forall|i: int| 0 <= i < loaded@.len() implies #[trigger] fresh.accepts(
                record_of(loaded@[i]).name,
                record_of(loaded@[i]).content.len(),
            ) by {
                assert(tar_name_ok(record_of(loaded@[i]).name));
            }
        }
    }
    match gateway.finish() {
        Ok(archive) => Ok(RunReport { archive, outcomes }),
        Err(e) => Err(e),
    }
}

/// Whether tar takes the name of every entry.
pub open spec fn tar_names_ok(es: Seq<LoadedEntry>) -> bool {
    forall|i: int| 0 <= i < es.len() ==> #[trigger] tar_name_ok(record_of(es[i]).name)
}

/// Whether every entry's name and size are within what zip takes.
pub open spec fn zip_sizes_ok(es: Seq<LoadedEntry>) -> bool {
    forall|i: int| 0 <= i < es.len() ==> #[trigger] record_of(es[i]).name.len() <= ZIP_NAME_LIMIT
        && record_of(es[i]).content.len() <= ZIP_SIZE_LIMIT
}

/// Builds a zip archive of the loaded entries, in the same way. The archive
/// holds exactly the entries whose outcome is `Ok`, in order; with distinct
/// names and sizes within zip's limits, that is every entry read in full.
pub fn build_zip_archive(
    loaded: &Vec<LoadedEntry>,
    progress: &mut CompressionProgress,
    clock: &std::time::Instant,
) -> (r: Result<RunReport, ArchiveError>)
    requires
        old(progress).wf(),
        old(progress).completed + increments_of(loaded@) <= old(progress).total_files,
    ensures
        final(progress).wf(),
        final(progress).completed == old(progress).completed + increments_of(loaded@),
        final(progress).total_files == old(progress).total_files,
        match r {
            Ok(report) => {
                &&& report.outcomes@.len() == loaded@.len()
                &&& forall|i: int| 0 <= i < loaded@.len() ==> outcome_fits(loaded@[i], #[trigger] report.outcomes@[i])
                &&& report.archive@ == zip_bytes_of(items_of(records_of(loaded@, report.outcomes@)))
                &&& (zip_sizes_ok(loaded@) && distinct_names(loaded@)) ==> forall|i: int|
                    0 <= i < loaded@.len() && read_in_full(loaded@[i]) ==> #[trigger] report.outcomes@[i] is Ok
            },
            Err(_) => false,
        },
{
    let mut gateway = ZipGateway::new();
    let ghost fresh = gateway;
    let outcomes = process_tar_entries(loaded, &mut gateway, progress, clock);
    assert(gateway.records() =~= records_of(loaded@, outcomes@));
    proof {
        if zip_sizes_ok(loaded@) {
            assert forall|i: int| 0 <= i < loaded@.len() implies #[trigger] fresh.accepts(
                record_of(loaded@[i]).name,
                record_of(loaded@[i]).content.len(),
            ) by {
                assert(record_of(loaded@[i]).name.len() <= ZIP_NAME_LIMIT
                    && record_of(loaded@[i]).content.len() <= ZIP_SIZE_LIMIT);
            }
        }
    }
    match gateway.finish() {
        Ok(archive) => Ok(RunReport { archive, outcomes }),
        Err(e) => Err(e),
    }
}

proof fn lemma_units_match(es: Seq<Entry>, loaded: Seq<LoadedEntry>)
    requires
        es.len() == loaded.len(),
        forall|i: int| 0 <= i < es.len() ==> #[trigger] loaded[i].entry == es[i],
    ensures
        progress_units(entry_models(es)) == increments_of(loaded),
    decreases es.len(),
{
    if es.len() > 0 {
        let m = entry_models(es);
        assert(m.drop_last() =~= entry_models(es.drop_last()));
        assert(loaded.last().entry == es.last());
        lemma_units_match(es.drop_last(), loaded.drop_last());
    }
}

/// The total that the counting pass gives for a walk equals the number of
/// progress increments that processing the entries collected from the same
/// walk issues.
pub proof fn lemma_count_equals_increments(
    root: Seq<Seq<char>>,
    walk: Seq<crate::entry::WalkedNode>,
    es: Seq<Entry>,
    loaded: Seq<LoadedEntry>,
)
    requires
        entry_models(es) == selected(root, walk),
        es.len() == loaded.len(),
        forall|i: int| 0 <= i < es.len() ==> #[trigger] loaded[i].entry == es[i],
    ensures
        progress_units(selected(root, walk)) == increments_of(loaded),
{
    lemma_units_match(es, loaded);
}

/// A non-empty directory is never counted as a unit of progress of its own;
/// an empty directory and a file each count once.
pub proof fn lemma_directory_units(l: LoadedEntry)
    ensures
        increments_of(seq![l]) == if l.entry.kind == EntryKind::NonEmptyDirectory {
            0nat
        } else {
            1nat
        },
{
    assert(seq![l].drop_last() =~= Seq::<LoadedEntry>::empty());
    assert(increments_of(Seq::<LoadedEntry>::empty()) == 0);
    assert(seq![l].last() == l);
}

/// Every file that a run reports as appended has a record in the archive
/// under its name, with exactly the bytes that were read, whose length is
/// the size its header announced, and with its mode and modification time.
pub proof fn lemma_appended_files_recorded(
    es: Seq<LoadedEntry>,
    outcomes: Seq<Result<(), EntryError>>,
    i: int,
)
    requires
        outcomes.len() == es.len(),
        0 <= i < es.len(),
        forall|j: int| 0 <= j < es.len() ==> outcome_fits(es[j], #[trigger] outcomes[j]),
        es[i].entry.kind == EntryKind::File,
        outcomes[i] is Ok,
    ensures
        es[i].file matches Some(f) && f.size_bytes == f.contents@.len() && exists|k: int|
            0 <= k < records_of(es, outcomes).len() && #[trigger] records_of(es, outcomes)[k]
                == file_record(comps(es[i].entry.relative@), f),
    decreases es.len(),
{
    assert(outcome_fits(es[i], outcomes[i]));
    let rest = records_of(es.drop_last(), outcomes.drop_last());
    if i == es.len() - 1 {
        let all = records_of(es, outcomes);
        assert(all == rest.push(record_of(es[i])));
        assert(all[rest.len() as int] == record_of(es[i]));
    } else {
        assert forall|j: int| 0 <= j < es.drop_last().len() implies outcome_fits(
            es.drop_last()[j],
            #[trigger] outcomes.drop_last()[j],
        ) by {
            assert(outcome_fits(es[j], outcomes[j]));
        }
        lemma_appended_files_recorded(es.drop_last(), outcomes.drop_last(), i);
        let k = choose|k: int|
            0 <= k < rest.len() && #[trigger] rest[k] == record_of(es[i]);
        let all = records_of(es, outcomes);
        assert(all[k] == rest[k]);
    }
}

/// How many records carry the name `n`.
pub open spec fn named_count(rs: Seq<ArchiveRecord>, n: Seq<char>) -> nat
    decreases rs.len(),
{
    if rs.len() == 0 {
        0
    } else {
        named_count(rs.drop_last(), n) + if rs.last().name == n { 1nat } else { 0nat }
    }
}

/// Whether the entries have pairwise distinct names in the archive.
pub open spec fn distinct_names(es: Seq<LoadedEntry>) -> bool {
    forall|j: int, k: int|
        0 <= j < k < es.len() ==> #[trigger] record_of(es[j]).name != #[trigger] record_of(es[k]).name
}

proof fn lemma_name_absent(es: Seq<LoadedEntry>, outcomes: Seq<Result<(), EntryError>>, n: Seq<char>)
    requires
        outcomes.len() == es.len(),
        forall|j: int| 0 <= j < es.len() ==> #[trigger] record_of(es[j]).name != n,
    ensures
        named_count(records_of(es, outcomes), n) == 0,
    decreases es.len(),
{
    if es.len() > 0 {
        assert(record_of(es[es.len() - 1]).name != n);
        assert forall|j: int| 0 <= j < es.drop_last().len() implies #[trigger] record_of(
            es.drop_last()[j],
        ).name != n by {
            assert(record_of(es[j]).name != n);
        }
        lemma_name_absent(es.drop_last(), outcomes.drop_last(), n);
        let rest = records_of(es.drop_last(), outcomes.drop_last());
        if outcomes.last() is Ok {
            assert(rest.push(record_of(es.last())).drop_last() =~= rest);
        }
    }
}

/// When the entries' names are distinct, an entry that a run reports as
/// appended has exactly one record under its name.
pub proof fn lemma_appended_entry_unique(
    es: Seq<LoadedEntry>,
    outcomes: Seq<Result<(), EntryError>>,
    i: int,
)
    requires
        outcomes.len() == es.len(),
        0 <= i < es.len(),
        distinct_names(es),
        outcomes[i] is Ok,
    ensures
        named_count(records_of(es, outcomes), record_of(es[i]).name) == 1,
    decreases es.len(),
{
    let n = record_of(es[i]).name;
    let rest = records_of(es.drop_last(), outcomes.drop_last());
    let last = es.len() - 1;
    assert(distinct_names(es.drop_last())) by {
        assert forall|j: int, k: int| 0 <= j < k < es.drop_last().len() implies #[trigger] record_of(
            es.drop_last()[j],
        ).name != #[trigger] record_of(es.drop_last()[k]).name by {
            assert(record_of(es[j]).name != record_of(es[k]).name);
        }
    }
    if i == last {
        assert forall|j: int| 0 <= j < es.drop_last().len() implies #[trigger] record_of(
            es.drop_last()[j],
        ).name != n by {
            assert(record_of(es[j]).name != record_of(es[last]).name);
        }
        lemma_name_absent(es.drop_last(), outcomes.drop_last(), n);
        assert(rest.push(record_of(es.last())).drop_last() =~= rest);
    } else {
        lemma_appended_entry_unique(es.drop_last(), outcomes.drop_last(), i);
        assert(record_of(es[i]).name != record_of(es[last]).name);
        if outcomes.last() is Ok {
            assert(rest.push(record_of(es.last())).drop_last() =~= rest);
        }
    }
}

/// Two runs over the same entries in which the writer accepts the same
/// entries leave the same records: the same names with the same contents.
pub proof fn lemma_runs_agree(
    es: Seq<LoadedEntry>,
    first: Seq<Result<(), EntryError>>,
    second: Seq<Result<(), EntryError>>,
)
    requires
        first.len() == es.len(),
        second.len() == es.len(),
        forall|i: int| 0 <= i < es.len() ==> (#[trigger] first[i] is Ok <==> second[i] is Ok),
    ensures
        records_of(es, first) == records_of(es, second),
    decreases es.len(),
{
    if es.len() > 0 {
        assert(first.last() is Ok <==> second.last() is Ok) by {
            assert(first[es.len() - 1] is Ok <==> second[es.len() - 1] is Ok);
        }
        assert forall|i: int| 0 <= i < es.drop_last().len() implies (
        #[trigger] first.drop_last()[i] is Ok <==> second.drop_last()[i] is Ok) by {
            assert(first[i] is Ok <==> second[i] is Ok);
        }
        lemma_runs_agree(es.drop_last(), first.drop_last(), second.drop_last());
    }
}

/// Two runs over the same entries in which every entry read in full was
/// appended produce byte-identical tar archives.
pub proof fn lemma_tar_runs_identical(
    es: Seq<LoadedEntry>,
    first: Seq<Result<(), EntryError>>,
    second: Seq<Result<(), EntryError>>,
)
    requires
        first.len() == es.len(),
        second.len() == es.len(),
        forall|i: int| 0 <= i < es.len() ==> outcome_fits(es[i], #[trigger] first[i]),
        forall|i: int| 0 <= i < es.len() ==> outcome_fits(es[i], #[trigger] second[i]),
        forall|i: int| 0 <= i < es.len() && read_in_full(es[i]) ==> #[trigger] first[i] is Ok,
        forall|i: int| 0 <= i < es.len() && read_in_full(es[i]) ==> #[trigger] second[i] is Ok,
    ensures
        tar_bytes_of(items_of(records_of(es, first))) == tar_bytes_of(items_of(records_of(es, second))),
{
    assert forall|i: int| 0 <= i < es.len() implies (#[trigger] first[i] is Ok <==> second[i] is Ok) by {
        assert(outcome_fits(es[i], first[i]));
        assert(outcome_fits(es[i], second[i]));
        if read_in_full(es[i]) {
            assert(first[i] is Ok);
            assert(second[i] is Ok);
        }
    }
    lemma_runs_agree(es, first, second);
}

/// In a run over entries with distinct names where every entry read in
/// full was appended (as `build_tar_archive` and `build_zip_archive` ensure
/// for names and sizes their writer takes), each file read in full is in the
/// archive exactly once, with its bytes, a size equal to their length, its
/// mode and its modification time.
pub proof fn lemma_each_file_once(
    es: Seq<LoadedEntry>,
    outcomes: Seq<Result<(), EntryError>>,
    i: int,
)
    requires
        outcomes.len() == es.len(),
        forall|j: int| 0 <= j < es.len() ==> outcome_fits(es[j], #[trigger] outcomes[j]),
        forall|j: int| 0 <= j < es.len() && read_in_full(es[j]) ==> #[trigger] outcomes[j] is Ok,
        distinct_names(es),
        0 <= i < es.len(),
        es[i].entry.kind == EntryKind::File,
        read_in_full(es[i]),
    ensures
        es[i].file matches Some(f) && f.size_bytes == f.contents@.len() && named_count(
            records_of(es, outcomes),
            name_in_archive(comps(es[i].entry.relative@), false),
        ) == 1 && exists|k: int|
            0 <= k < records_of(es, outcomes).len() && #[trigger] records_of(es, outcomes)[k]
                == file_record(comps(es[i].entry.relative@), f),
{
    assert(outcomes[i] is Ok);
    lemma_appended_files_recorded(es, outcomes, i);
    lemma_appended_entry_unique(es, outcomes, i);
}

} // verus!
