use vstd::prelude::*;

use crate::win_api::{
    aborts_enumeration, get_logical_drive_from, logical_drives_spec, mask_letters, DriveType,
    OsError, ERROR_NOT_READY,
};

verus! {

/// Provides information about a partition
#[derive(Debug)]
pub struct WindowsPartition {
    /// Drive letter assigned to partition
    pub letter: char,
    /// Indicate if partition is ready.
    /// For a CD-Rom drive this property indicates if CD was inserted
    pub ready: bool,
    /// Partition name
    pub name: String,
    /// Total size of partition in bytes
    pub size: u64,
    /// Free space in bytes
    pub free_space: u64,
    /// Partition format name
    pub file_system_name: String,
    /// Partition type
    pub drive_type: DriveType,
}

/// The mathematical value of a partition record.
pub struct PartitionView {
    pub letter: char,
    pub ready: bool,
    pub name: Seq<char>,
    pub size: u64,
    pub free_space: u64,
    pub file_system_name: Seq<char>,
    pub drive_type: DriveType,
}

impl View for WindowsPartition {
    type V = PartitionView;

    open spec fn view(&self) -> PartitionView {
        PartitionView {
            letter: self.letter,
            ready: self.ready,
            name: self.name@,
            size: self.size,
            free_space: self.free_space,
            file_system_name: self.file_system_name@,
            drive_type: self.drive_type,
        }
    }
}

/// What the system answered about one drive letter: its drive type, the
/// outcome of the free-space query as `(available to caller, total, free)`,
/// and the outcome of the volume query as
/// `(volume name, file-system name, serial number, maximum component length, file-system flags)`.
pub struct DriveReport {
    pub drive_type: DriveType,
    pub free_space: Result<(u64, u64, u64), OsError>,
    pub volume: Result<(String, String, u32, u32, u32), OsError>,
}

/// The query failed with an error other than "device not ready".
pub open spec fn fails_hard<T>(q: Result<T, OsError>) -> bool {
    q is Err && q->Err_0.code != ERROR_NOT_READY
}

/// The record for the drive `letter`, or the error that aborts the
/// enumeration. A "device not ready" failure of either query marks the drive
/// as not ready, and a drive that is not ready has an empty name and file
/// system and zero sizes; any other failure is passed on.
pub open spec fn partition_spec(letter: char, r: DriveReport) -> Result<PartitionView, OsError> {
    if fails_hard(r.free_space) {
        Err(r.free_space->Err_0)
    } else if fails_hard(r.volume) {
        Err(r.volume->Err_0)
    } else if r.free_space is Ok && r.volume is Ok {
        Ok(
            PartitionView {
                letter,
                ready: true,
                name: r.volume->Ok_0.0@,
                size: r.free_space->Ok_0.1,
                free_space: r.free_space->Ok_0.2,
                file_system_name: r.volume->Ok_0.1@,
                drive_type: r.drive_type,
            },
        )
    } else {
        Ok(not_ready_record(letter, r.drive_type))
    }
}

/// The record of a drive that has no accessible medium.
pub open spec fn not_ready_record(letter: char, drive_type: DriveType) -> PartitionView {
    PartitionView {
        letter,
        ready: false,
        name: Seq::empty(),
        size: 0,
        free_space: 0,
        file_system_name: Seq::empty(),
        drive_type,
    }
}

/// The report holds a failure that aborts the enumeration.
pub open spec fn aborts(r: DriveReport) -> bool {
    fails_hard(r.free_space) || fails_hard(r.volume)
}

/// The reports follow the letters one for one: all of them, or the first ones
/// up to a drive whose queries abort the enumeration, after which no drive is
/// queried.
pub open spec fn reports_fit(letters: Seq<char>, reports: Seq<DriveReport>) -> bool {
    ||| reports.len() == letters.len()
    ||| (0 < reports.len() < letters.len() && aborts(reports.last()))
}

/// The records of the first `n` drives, or the first error that aborts.
pub open spec fn partitions_below(letters: Seq<char>, reports: Seq<DriveReport>, n: nat) -> Result<
    Seq<PartitionView>,
    OsError,
>
    decreases n,
{
    if n == 0 {
        Ok(Seq::empty())
    } else {
        match partitions_below(letters, reports, (n - 1) as nat) {
            Err(e) => Err(e),
            Ok(s) => match partition_spec(letters[n - 1], reports[n - 1]) {
                Err(e) => Err(e),
                Ok(p) => Ok(s.push(p)),
            },
        }
    }
}

/// The whole enumeration: the drives of the bitmask, one record each, in
/// ascending letter order; or the first error met.
pub open spec fn partitions_spec(bitmask: u32, last_error: i32, reports: Seq<DriveReport>) -> Result<
    Seq<PartitionView>,
    OsError,
> {
    match logical_drives_spec(bitmask, last_error) {
        Err(e) => Err(e),
        Ok(letters) => partitions_below(letters, reports, reports.len()),
    }
}

pub open spec fn views(v: Seq<WindowsPartition>) -> Seq<PartitionView> {
    v.map_values(|p: WindowsPartition| p@)
}

/// Once the enumeration has aborted, later drives do not change its error.
proof fn lemma_abort_persists(letters: Seq<char>, reports: Seq<DriveReport>, n: nat, m: nat)
    requires
        n <= m,
        partitions_below(letters, reports, n) is Err,
    ensures
        partitions_below(letters, reports, m) == partitions_below(letters, reports, n),
    decreases m - n,
{
    if n < m {
        lemma_abort_persists(letters, reports, n, (m - 1) as nat);
    }
}

/// Whether the enumeration must stop at this drive.
pub fn report_aborts(report: &DriveReport) -> (r: bool)
    ensures
        r == aborts(*report),
{
    let free_fails = match &report.free_space {
        Err(err) => aborts_enumeration(err),
        Ok(_) => false,
    };
    let volume_fails = match &report.volume {
        Err(err) => aborts_enumeration(err),
        Ok(_) => false,
    };
    free_fails || volume_fails
}

/// Builds the record of the drive `letter` from what the system answered
/// about it, or returns the error that must abort the enumeration.
pub fn partition_from_report(letter: char, report: &DriveReport) -> (r: Result<
    WindowsPartition,
    OsError,
>)
    ensures
        match partition_spec(letter, *report) {
            Ok(p) => r is Ok && r->Ok_0@ == p,
            Err(e) => r == Err::<WindowsPartition, OsError>(e),
        },
{
    match &report.free_space {
        Err(err) if aborts_enumeration(err) => {
            return Err(*err);
        },
        _ => {},
    }
    match &report.volume {
        Err(err) if aborts_enumeration(err) => {
            return Err(*err);
        },
        _ => {},
    }
    match (&report.free_space, &report.volume) {
        (Ok(space), Ok(volume)) => Ok(
            WindowsPartition {
                letter,
                ready: true,
                name: volume.0.clone(),
                size: space.1,
                free_space: space.2,
                file_system_name: volume.1.clone(),
                drive_type: report.drive_type,
            },
        ),
        _ => Ok(
            WindowsPartition {
                letter,
                ready: false,
                name: String::new(),
                size: 0,
                free_space: 0,
                file_system_name: String::new(),
                drive_type: report.drive_type,
            },
        ),
    }
}

/// Gets the list of partitions of the host, or the operating-system error
/// that stopped the enumeration.
///
/// `bitmask` and `last_error` are what `GetLogicalDrives` returned and the
/// last-error code read right after it; `reports[i]` is what the system
/// answered about the `i`-th letter of the bitmask, in ascending order. The
/// reports may stop after the first drive whose queries abort.
pub fn get_partitions(bitmask: u32, last_error: i32, reports: &Vec<DriveReport>) -> (r: Result<
    Vec<WindowsPartition>,
    OsError,
>)
    requires
        bitmask != 0 ==> reports_fit(mask_letters(bitmask), reports@),
    ensures
        match partitions_spec(bitmask, last_error, reports@) {
            Ok(s) => r is Ok && views(r->Ok_0@) == s,
            Err(e) => r == Err::<Vec<WindowsPartition>, OsError>(e),
        },
{
    let drives = match get_logical_drive_from(bitmask, last_error) {
        Ok(drives) => drives,
        Err(e) => {
            return Err(e);
        },
    };
    let mut result: Vec<WindowsPartition> = Vec::new();
    assert(views(result@) =~= Seq::<PartitionView>::empty());
    let mut i: usize = 0;
    while i < reports.len()
        invariant
            bitmask != 0,
            drives@ == mask_letters(bitmask),
            reports@.len() <= drives@.len(),
            i <= reports@.len(),
            partitions_below(drives@, reports@, i as nat) == Ok::<Seq<PartitionView>, OsError>(
                views(result@),
            ),
        decreases reports@.len() - i,
    {
        match partition_from_report(drives[i], &reports[i]) {
            Ok(p) => {
                let ghost before = result@;
                let ghost pv = p@;
                result.push(p);
                assert(views(result@) =~= views(before).push(pv));
            },
            Err(e) => {
                proof {
                    assert(partitions_below(drives@, reports@, (i + 1) as nat) == Err::<
                        Seq<PartitionView>,
                        OsError,
                    >(e));
                    lemma_abort_persists(drives@, reports@, (i + 1) as nat, reports@.len());
                    assert(logical_drives_spec(bitmask, last_error) == Ok::<Seq<char>, OsError>(
                        drives@,
                    ));
                    assert(partitions_spec(bitmask, last_error, reports@) == Err::<
                        Seq<PartitionView>,
                        OsError,
                    >(e));
                }
                return Err(e);
            },
        }
        i = i + 1;
    }
    Ok(result)
}

/// A drive whose free-space query fails with "device not ready" yields a
/// record marked not ready, with zero sizes and empty name and file system,
/// whatever its volume query gave short of an aborting error, and the
/// enumeration goes on past it.
pub proof fn lemma_not_ready_drive(letters: Seq<char>, reports: Seq<DriveReport>, i: nat)
    requires
        i < letters.len(),
        i < reports.len(),
        reports[i as int].free_space is Err,
        reports[i as int].free_space->Err_0.code == ERROR_NOT_READY,
        !fails_hard(reports[i as int].volume),
        partitions_below(letters, reports, i) is Ok,
    ensures
        partitions_below(letters, reports, i + 1) == Ok::<Seq<PartitionView>, OsError>(
            partitions_below(letters, reports, i)->Ok_0.push(
                not_ready_record(letters[i as int], reports[i as int].drive_type),
            ),
        ),
        not_ready_record(letters[i as int], reports[i as int].drive_type) == (PartitionView {
            letter: letters[i as int],
            ready: false,
            name: Seq::empty(),
            size: 0,
            free_space: 0,
            file_system_name: Seq::empty(),
            drive_type: reports[i as int].drive_type,
        }),
{
}

/// If the free-space query of any drive fails with an error other than
/// "device not ready" (access denied, for one), the enumeration returns an
/// error and no partition list.
pub proof fn lemma_hard_failure_aborts(
    bitmask: u32,
    last_error: i32,
    reports: Seq<DriveReport>,
    i: nat,
)
    requires
        bitmask != 0,
        reports_fit(mask_letters(bitmask), reports),
        i < reports.len(),
        fails_hard(reports[i as int].free_space),
    ensures
        partitions_spec(bitmask, last_error, reports) is Err,
{
    let letters = mask_letters(bitmask);
    if partitions_below(letters, reports, i) is Err {
        lemma_abort_persists(letters, reports, i, i + 1);
    }
    assert(partitions_below(letters, reports, i + 1) is Err);
    lemma_abort_persists(letters, reports, i + 1, reports.len());
}

/// The two query outcomes agree on success, and on the error when they fail.
pub open spec fn same_outcome<T>(a: Result<T, OsError>, b: Result<T, OsError>) -> bool {
    ||| (a is Ok && b is Ok)
    ||| (a is Err && b is Err && a->Err_0 == b->Err_0)
}

/// The reports describe the same drives in the same state, whatever the
/// names and sizes they give.
pub open spec fn same_drives(r1: Seq<DriveReport>, r2: Seq<DriveReport>) -> bool {
    &&& r1.len() == r2.len()
    &&& forall|i: int|
        0 <= i < r1.len() ==> {
            &&& (#[trigger] r1[i]).drive_type == r2[i].drive_type
            &&& same_outcome(r1[i].free_space, r2[i].free_space)
            &&& same_outcome(r1[i].volume, r2[i].volume)
        }
}

/// The partition lists have the same letters, readiness and drive types.
pub open spec fn same_shape(s1: Seq<PartitionView>, s2: Seq<PartitionView>) -> bool {
    &&& s1.len() == s2.len()
    &&& forall|i: int|
        0 <= i < s1.len() ==> {
            &&& (#[trigger] s1[i]).letter == s2[i].letter
            &&& s1[i].ready == s2[i].ready
            &&& s1[i].drive_type == s2[i].drive_type
        }
}

proof fn lemma_same_drives_below(
    letters: Seq<char>,
    r1: Seq<DriveReport>,
    r2: Seq<DriveReport>,
    n: nat,
)
    requires
        same_drives(r1, r2),
        n <= letters.len(),
        n <= r1.len(),
    ensures
        partitions_below(letters, r1, n) is Ok <==> partitions_below(letters, r2, n) is Ok,
        partitions_below(letters, r1, n) is Ok ==> same_shape(
            partitions_below(letters, r1, n)->Ok_0,
            partitions_below(letters, r2, n)->Ok_0,
        ),
        partitions_below(letters, r1, n) is Err ==> partitions_below(letters, r1, n)
            == partitions_below(letters, r2, n),
    decreases n,
{
    if n > 0 {
        let p = (n - 1) as nat;
        lemma_same_drives_below(letters, r1, r2, p);
        assert(r1[p as int].drive_type == r2[p as int].drive_type);
        if partitions_below(letters, r1, n) is Ok {
            let s1 = partitions_below(letters, r1, n)->Ok_0;
            let s2 = partitions_below(letters, r2, n)->Ok_0;
            let q1 = partitions_below(letters, r1, p)->Ok_0;
            let q2 = partitions_below(letters, r2, p)->Ok_0;
            assert forall|i: int| 0 <= i < s1.len() implies {
                &&& (#[trigger] s1[i]).letter == s2[i].letter
                &&& s1[i].ready == s2[i].ready
                &&& s1[i].drive_type == s2[i].drive_type
            } by {
                if i < q1.len() {
                    assert(s1[i] == q1[i]);
                    assert(s2[i] == q2[i]);
                }
            }
        }
    }
}

/// Enumerating an unchanged host twice gives the same outcome: both calls
/// fail with the same error, or both succeed with the same letters, readiness
/// and drive types (names and sizes may differ).
pub proof fn lemma_repeatable(
    bitmask: u32,
    last_error: i32,
    r1: Seq<DriveReport>,
    r2: Seq<DriveReport>,
)
    requires
        bitmask != 0 ==> reports_fit(mask_letters(bitmask), r1),
        same_drives(r1, r2),
    ensures
        partitions_spec(bitmask, last_error, r1) is Ok <==> partitions_spec(
            bitmask,
            last_error,
            r2,
        ) is Ok,
        partitions_spec(bitmask, last_error, r1) is Ok ==> same_shape(
            partitions_spec(bitmask, last_error, r1)->Ok_0,
            partitions_spec(bitmask, last_error, r2)->Ok_0,
        ),
        partitions_spec(bitmask, last_error, r1) is Err ==> partitions_spec(
            bitmask,
            last_error,
            r1,
        ) == partitions_spec(bitmask, last_error, r2),
{
    if bitmask != 0 {
        let letters = mask_letters(bitmask);
        lemma_same_drives_below(letters, r1, r2, r1.len());
    }
}

proof fn lemma_letters_below(letters: Seq<char>, reports: Seq<DriveReport>, n: nat)
    requires
        n <= letters.len(),
        n <= reports.len(),
        partitions_below(letters, reports, n) is Ok,
    ensures
        partitions_below(letters, reports, n)->Ok_0.len() == n,
        forall|i: int|
            0 <= i < n ==> (#[trigger] partitions_below(letters, reports, n)->Ok_0[i]).letter
                == letters[i],
        forall|i: int| 0 <= i < n ==> !aborts(#[trigger] reports[i]),
    decreases n,
{
    if n > 0 {
        lemma_letters_below(letters, reports, (n - 1) as nat);
    }
}

/// A successful enumeration yields one record for each letter of the bitmask,
/// in the bitmask's ascending order, and no drive of it aborted.
pub proof fn lemma_one_record_per_letter(bitmask: u32, last_error: i32, reports: Seq<DriveReport>)
    requires
        bitmask != 0 ==> reports_fit(mask_letters(bitmask), reports),
        partitions_spec(bitmask, last_error, reports) is Ok,
    ensures
        bitmask != 0,
        partitions_spec(bitmask, last_error, reports)->Ok_0.len() == mask_letters(bitmask).len(),
        forall|i: int|
            0 <= i < mask_letters(bitmask).len() ==> (#[trigger] partitions_spec(
                bitmask,
                last_error,
                reports,
            )->Ok_0[i]).letter == mask_letters(bitmask)[i],
{
    let letters = mask_letters(bitmask);
    lemma_letters_below(letters, reports, reports.len());
    if reports.len() < letters.len() {
        assert(!aborts(reports[reports.len() - 1]));
    }
}

} // verus!
