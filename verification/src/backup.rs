//! Backup retention: naming new backups, selecting old ones for
//! deletion, and summarizing what a cleanup run achieved.  The caller
//! lists the backup directory and deletes files; every decision about
//! which files go is made here.

use vstd::prelude::*;
use vstd::string::StringExecFns;

use crate::host::timestamp_compact;
use crate::strutil::head_matches;
use crate::types::CleanupResult;

verus! {

/// Number of seconds in one day, used by the retention policy.
pub const SECONDS_PER_DAY: u64 = 86400;

/// How many days of backups a startup cleanup keeps.
pub const STARTUP_CLEANUP_DAYS: u32 = 30;

/// Threshold time for backup cleanup: the moment `days` days before
/// `now_secs`, or `None` when the subtraction would underflow.
pub fn cleanup_threshold(now_secs: u64, days: u32) -> (r: Option<u64>)
    ensures
        (days as u64) * SECONDS_PER_DAY <= now_secs ==> r == Some(
            (now_secs - (days as u64) * SECONDS_PER_DAY) as u64,
        ),
        (days as u64) * SECONDS_PER_DAY > now_secs ==> r is None,
{
    proof {
        assert((days as u64) * SECONDS_PER_DAY <= u64::MAX) by (nonlinear_arith)
            requires days <= u32::MAX
        ;
    }
    let window: u64 = (days as u64) * SECONDS_PER_DAY;
    now_secs.checked_sub(window)
}

/// What the caller learned about one entry of the backup directory.
#[derive(Debug, Clone)]
pub struct BackupEntry {
    /// File name of the entry.
    pub name: String,
    /// Whether the entry is a regular file.
    pub is_file: bool,
    /// Modification time, in seconds since the epoch.
    pub modified_secs: u64,
    /// Size in bytes.
    pub size: u64,
}

/// An entry falls to the cleanup when it is a file modified before the
/// threshold.
pub open spec fn spec_is_old(e: BackupEntry, threshold_secs: u64) -> bool {
    e.is_file && e.modified_secs < threshold_secs
}

/// The indices of the entries an expiry run deletes: exactly the files
/// modified before the threshold, in directory order.
pub fn select_old_backups(entries: &Vec<BackupEntry>, threshold_secs: u64) -> (r: Vec<usize>)
    ensures
        forall|j: int|
            0 <= j < r@.len() ==> (#[trigger] r@[j]) < entries@.len() && spec_is_old(
                entries@[r@[j] as int],
                threshold_secs,
            ),
        forall|a: int, b: int| 0 <= a < b < r@.len() ==> r@[a] < r@[b],
        forall|i: int|
            0 <= i < entries@.len() && spec_is_old(#[trigger] entries@[i], threshold_secs)
                ==> r@.contains(i as usize),
{
    let n = entries.len();
    let mut r: Vec<usize> = Vec::new();
    let mut i: usize = 0;
    while i < n
        invariant
            n == entries@.len(),
            0 <= i <= n,
            forall|j: int|
                0 <= j < r@.len() ==> (#[trigger] r@[j]) < i && spec_is_old(
                    entries@[r@[j] as int],
                    threshold_secs,
                ),
            forall|a: int, b: int| 0 <= a < b < r@.len() ==> r@[a] < r@[b],
            forall|k: int|
                0 <= k < i && spec_is_old(#[trigger] entries@[k], threshold_secs) ==> r@.contains(
                    k as usize,
                ),
        decreases n - i,
    {
        let e = &entries[i];
        if e.is_file && e.modified_secs < threshold_secs {
            let ghost r0 = r@;
            r.push(i);
            proof {
                assert forall|k: int|
                    0 <= k <= i && spec_is_old(#[trigger] entries@[k], threshold_secs) implies r@.contains(
                    k as usize,
                ) by {
                    if k < i {
                        let w = choose|w: int| 0 <= w < r0.len() && r0[w] == k as usize;
                        assert(r@[w] == k as usize);
                    } else {
                        assert(r@[r@.len() - 1] == i);
                    }
                }
            }
        }
        i = i + 1;
    }
    r
}

/// The sum of the sizes.
pub open spec fn sum_of(s: Seq<u64>) -> int
    decreases s.len(),
{
    if s.len() == 0 {
        0
    } else {
        sum_of(s.drop_last()) + s.last()
    }
}

/// Summarize a cleanup run from the sizes of the files that were in
/// fact deleted, together with the problems hit along the way.
pub fn summarize_cleanup(deleted_sizes: &Vec<u64>, errors: Vec<String>) -> (r: CleanupResult)
    requires
        deleted_sizes@.len() <= u32::MAX,
        sum_of(deleted_sizes@) <= u64::MAX,
    ensures
        r.deleted_count == deleted_sizes@.len(),
        r.deleted_size_bytes == sum_of(deleted_sizes@),
        r.errors == errors,
{
    let n = deleted_sizes.len();
    let mut total: u64 = 0;
    let mut i: usize = 0;
    while i < n
        invariant
            n == deleted_sizes@.len(),
            sum_of(deleted_sizes@) <= u64::MAX,
            0 <= i <= n,
            total == sum_of(deleted_sizes@.subrange(0, i as int)),
        decreases n - i,
    {
        proof {
            lemma_sum_prefix(deleted_sizes@, i as int);
            lemma_sum_nonneg(deleted_sizes@.subrange(0, i as int + 1));
            lemma_sum_prefix_bound(deleted_sizes@, i as int + 1);
        }
        total = total + deleted_sizes[i];
        i = i + 1;
    }
    proof {
        assert(deleted_sizes@.subrange(0, n as int) =~= deleted_sizes@);
    }
    CleanupResult {
        deleted_count: n as u32,
        deleted_size_bytes: total,
        errors,
    }
}

/// One more element extends the sum by that element.
proof fn lemma_sum_prefix(s: Seq<u64>, i: int)
    requires
        0 <= i < s.len(),
    ensures
        sum_of(s.subrange(0, i + 1)) == sum_of(s.subrange(0, i)) + s[i],
{
    assert(s.subrange(0, i + 1).drop_last() =~= s.subrange(0, i));
    assert(s.subrange(0, i + 1).last() == s[i]);
}

/// Sums of sizes are never negative.
proof fn lemma_sum_nonneg(s: Seq<u64>)
    ensures
        sum_of(s) >= 0,
    decreases s.len(),
{
    if s.len() > 0 {
        lemma_sum_nonneg(s.drop_last());
    }
}

/// A prefix never sums to more than the whole.
proof fn lemma_sum_prefix_bound(s: Seq<u64>, i: int)
    requires
        0 <= i <= s.len(),
    ensures
        sum_of(s.subrange(0, i)) <= sum_of(s),
    decreases s.len() - i,
{
    if i < s.len() {
        lemma_sum_prefix(s, i);
        lemma_sum_prefix_bound(s, i + 1);
    } else {
        assert(s.subrange(0, i) =~= s);
    }
}

/// What a startup cleanup reports: nothing noteworthy, a successful
/// expiry, or a failure that is noted and otherwise ignored.
#[derive(Debug, Clone)]
pub enum StartupCleanupReport {
    /// Nothing was deleted; stay quiet.
    Quiet,
    /// Old backups were deleted.
    Cleaned { deleted_count: u32, deleted_size_bytes: u64 },
    /// The cleanup failed; startup continues regardless.
    Failed(String),
}

/// Digest the outcome of the cleanup a startup run performs: deletions
/// are reported, an uneventful run stays quiet, and a failure is noted
/// without disturbing startup.
pub fn perform_startup_cleanup(outcome: Result<CleanupResult, String>) -> (r: StartupCleanupReport)
    ensures
        outcome matches Ok(c) ==> {
            &&& c.deleted_count > 0 ==> r == (StartupCleanupReport::Cleaned {
                deleted_count: c.deleted_count,
                deleted_size_bytes: c.deleted_size_bytes,
            })
            &&& c.deleted_count == 0 ==> r is Quiet
        },
        outcome matches Err(m) ==> r == StartupCleanupReport::Failed(m),
{
    match outcome {
        Ok(c) => {
            if c.deleted_count > 0 {
                StartupCleanupReport::Cleaned {
                    deleted_count: c.deleted_count,
                    deleted_size_bytes: c.deleted_size_bytes,
                }
            } else {
                StartupCleanupReport::Quiet
            }
        },
        Err(m) => StartupCleanupReport::Failed(m),
    }
}

/// Join a file name and a timestamp into a backup file name.
pub fn backup_name_with_timestamp(file_name: &str, timestamp: &str) -> (r: String)
    ensures
        r@ == file_name@ + "_"@ + timestamp@,
{
    let mut s = String::from_str(file_name);
    s.append("_");
    s.append(timestamp);
    s
}

/// The name a backup of this file is stored under right now: the file
/// name, an underscore, and the current compact timestamp.  The
/// timestamp comes from the clock, so only the shape is promised.
pub fn generate_backup_name(file_name: &str) -> (r: String)
    ensures
        head_matches(r@, file_name@ + "_"@),
{
    let ts = timestamp_compact();
    let r = backup_name_with_timestamp(file_name, ts.as_str());
    proof {
        assert(r@.subrange(0, (file_name@ + "_"@).len() as int) =~= file_name@ + "_"@);
    }
    r
}

} // verus!
