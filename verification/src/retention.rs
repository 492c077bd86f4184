//! Deleting old data: what is old, what needs a confirmation, and what is told.
use vstd::prelude::*;

use crate::figures::{human_bytes, size_text};
use crate::number::{dec, dec_u64};
use crate::text::{lower, pad_left, right_aligned, to_lower, trim_str, trimmed};
use crate::window::NANOS;

verus! {

/// The nanoseconds of a day.
pub const DAY_NANOS: i128 = 86_400_000_000_000;

/// The moment before which data is old that is kept for some days.
pub open spec fn cutoff_of(now_nanos: int, days: u32) -> int {
    now_nanos - days * DAY_NANOS
}

/// The moment before which data is old, in nanoseconds since the epoch.
pub fn cutoff(now_nanos: i128, days: u32) -> (r: i128)
    requires
        0 <= now_nanos <= u64::MAX * NANOS,
    ensures
        r == cutoff_of(now_nanos as int, days),
{
    now_nanos - days as i128 * DAY_NANOS
}

/// The cutoff in seconds; the epoch for one before it.
pub fn cutoff_seconds(cutoff: i128) -> (r: i64)
    requires
        cutoff <= i64::MAX * NANOS,
    ensures
        r == if cutoff <= 0 {
            0
        } else {
            cutoff as int / NANOS as int
        },
{
    if cutoff <= 0 {
        0
    } else {
        (cutoff / NANOS) as i64
    }
}

/// Whether a file was last written before a moment. One of unknown age was not.
pub open spec fn written_before(modified_nanos: Option<i128>, cutoff: int) -> bool {
    modified_nanos matches Some(m) && m < cutoff
}

/// Whether a file is old: it was last written before the cutoff. A file of
/// unknown age is not.
pub fn is_old(modified_nanos: Option<i128>, cutoff: i128) -> (r: bool)
    ensures
        r == written_before(modified_nanos, cutoff as int),
{
    match modified_nanos {
        Some(m) => m < cutoff,
        None => false,
    }
}

/// Keeping data longer deletes no more: a file that is old after the longer time
/// is old after the shorter one.
pub proof fn longer_retention_deletes_less(
    modified: Option<i128>,
    now: int,
    days: u32,
    more_days: u32,
)
    requires
        days <= more_days,
        written_before(modified, cutoff_of(now, more_days)),
    ensures
        written_before(modified, cutoff_of(now, days)),
{
    assert(days * DAY_NANOS <= more_days * DAY_NANOS) by (nonlinear_arith)
        requires
            days <= more_days,
            DAY_NANOS >= 0,
    ;
}

/// A file that is to be deleted.
#[derive(Debug)]
pub struct OldFile {
    pub path: String,
    pub size: u64,
}

/// The sizes of the first `n` files together.
pub open spec fn sizes(files: Seq<OldFile>, n: int) -> int
    decreases n,
{
    if n <= 0 {
        0
    } else {
        sizes(files, n - 1) + files[n - 1].size
    }
}

proof fn lemma_sizes_grow(files: Seq<OldFile>, m: int, n: int)
    requires
        0 <= m <= n,
    ensures
        0 <= sizes(files, m) <= sizes(files, n),
    decreases n,
{
    if m < n {
        lemma_sizes_grow(files, m, n - 1);
    } else if n > 0 {
        lemma_sizes_grow(files, m - 1, n - 1);
    }
}

/// The sizes of files together.
pub fn total_size(files: &Vec<OldFile>) -> (r: u64)
    requires
        sizes(files@, files@.len() as int) <= u64::MAX,
    ensures
        r == sizes(files@, files@.len() as int),
{
    let n: usize = files.len();
    let mut r: u64 = 0;
    let mut i: usize = 0;
    while i < n
        invariant
            n == files@.len(),
            sizes(files@, n as int) <= u64::MAX,
            i <= n,
            r == sizes(files@, i as int),
        decreases n - i,
    {
        proof {
            lemma_sizes_grow(files@, i + 1, n as int);
        }
        r = r + files[i].size;
        i = i + 1;
    }
    r
}

/// What a retention run does.
#[derive(Debug)]
pub enum Plan {
    /// Tell this, and nothing else.
    Tell(String),
    /// Refuse with this message.
    Refuse(String),
    /// Ask this first.
    Ask(String),
    Delete,
}

/// The model of a plan.
pub ghost enum PlanV {
    Tell(Seq<char>),
    Refuse(Seq<char>),
    Ask(Seq<char>),
    Delete,
}

impl View for Plan {
    type V = PlanV;

    open spec fn view(&self) -> PlanV {
        match self {
            Plan::Tell(s) => PlanV::Tell(s@),
            Plan::Refuse(s) => PlanV::Refuse(s@),
            Plan::Ask(s) => PlanV::Ask(s@),
            Plan::Delete => PlanV::Delete,
        }
    }
}

/// The lines of the first `n` files.
pub open spec fn file_lines(out: Seq<char>, files: Seq<OldFile>, n: int) -> Seq<char>
    decreases n,
{
    if n <= 0 {
        out
    } else {
        file_lines(out, files, n - 1) + "  "@ + right_aligned(size_text(files[n - 1].size as int), 10)
            + "  "@ + files[n - 1].path@ + "\n"@
    }
}

/// What would be deleted.
pub open spec fn preview(files: Seq<OldFile>, stale: nat, ack_path: Seq<char>) -> Seq<char> {
    let n = files.len() as int;
    let a = if n == 0 {
        Seq::empty()
    } else {
        file_lines(
            "DRY RUN — would delete "@ + dec(n as nat) + " file(s), "@ + size_text(
                sizes(files, n),
            ) + " total:\n"@,
            files,
            n,
        )
    };
    if stale == 0 {
        a
    } else {
        a + "DRY RUN — would drop "@ + dec(stale) + " stale ack line(s) from "@ + ack_path
            + "\n"@
    }
}

/// What a retention run does. Without old data it tells so; a preview deletes
/// nothing; and to delete everything takes a confirmation, which only a terminal
/// can give.
pub open spec fn plan_of(
    days: int,
    dry_run: bool,
    assume_yes: bool,
    terminal: bool,
    files: Seq<OldFile>,
    stale: nat,
    data_dir: Seq<char>,
    ack_path: Seq<char>,
) -> PlanV {
    if files.len() == 0 && stale == 0 {
        PlanV::Tell(
            if days == 0 {
                "No data to delete under "@ + data_dir + ".\n"@
            } else {
                "No files older than "@ + dec(days as nat) + " days found.\n"@
            },
        )
    } else if dry_run {
        PlanV::Tell(preview(files, stale, ack_path))
    } else if days == 0 && !assume_yes {
        if !terminal {
            PlanV::Refuse(
                "refusing to wipe all data non-interactively — re-run with --yes to confirm, or --dry-run to preview"@,
            )
        } else {
            PlanV::Ask(
                "This will permanently delete ALL "@ + dec(files.len()) + " file(s) ("@ + size_text(
                    sizes(files, files.len() as int),
                ) + ") under "@ + data_dir
                    + " — raw logs AND indexes.\nType 'yes' to continue: "@,
            )
        }
    } else {
        PlanV::Delete
    }
}

fn write_preview(files: &Vec<OldFile>, stale: usize, ack_path: &str) -> (r: String)
    requires
        sizes(files@, files@.len() as int) <= u64::MAX,
    ensures
        r@ == preview(files@, stale as nat, ack_path@),
{
    let mut r = String::new();
    assert(r@ =~= Seq::<char>::empty());
    let n: usize = files.len();
    if n > 0 {
        let mut head = "DRY RUN — would delete ".to_owned();
        head.append(dec_u64(n as u64).as_str());
        head.append(" file(s), ");
        head.append(human_bytes(total_size(files)).as_str());
        head.append(" total:\n");
        r = head;
        let ghost start = r@;
        let mut i: usize = 0;
        while i < n
            invariant
                n == files@.len(),
                i <= n,
                r@ == file_lines(start, files@, i as int),
            decreases n - i,
        {
            r.append("  ");
            r.append(pad_left(human_bytes(files[i].size).as_str(), 10).as_str());
            r.append("  ");
            r.append(files[i].path.as_str());
            r.append("\n");
            i = i + 1;
        }
    }
    if stale > 0 {
        r.append("DRY RUN — would drop ");
        r.append(dec_u64(stale as u64).as_str());
        r.append(" stale ack line(s) from ");
        r.append(ack_path);
        r.append("\n");
    }
    r
}

/// What a retention run does.
pub fn retention_plan(
    days: u32,
    dry_run: bool,
    assume_yes: bool,
    terminal: bool,
    files: &Vec<OldFile>,
    stale_ack_lines: usize,
    data_dir: &str,
    ack_path: &str,
) -> (r: Plan)
    requires
        sizes(files@, files@.len() as int) <= u64::MAX,
    ensures
        r@ == plan_of(
            days as int,
            dry_run,
            assume_yes,
            terminal,
            files@,
            stale_ack_lines as nat,
            data_dir@,
            ack_path@,
        ),
{
    if files.len() == 0 && stale_ack_lines == 0 {
        if days == 0 {
            let mut m = "No data to delete under ".to_owned();
            m.append(data_dir);
            m.append(".\n");
            return Plan::Tell(m);
        }
        let mut m = "No files older than ".to_owned();
        m.append(dec_u64(days as u64).as_str());
        m.append(" days found.\n");
        return Plan::Tell(m);
    }
    if dry_run {
        return Plan::Tell(write_preview(files, stale_ack_lines, ack_path));
    }
    if days == 0 && !assume_yes {
        if !terminal {
            return Plan::Refuse(
                "refusing to wipe all data non-interactively — re-run with --yes to confirm, or --dry-run to preview".to_owned(),
            );
        }
        let mut m = "This will permanently delete ALL ".to_owned();
        m.append(dec_u64(files.len() as u64).as_str());
        m.append(" file(s) (");
        m.append(human_bytes(total_size(files)).as_str());
        m.append(") under ");
        m.append(data_dir);
        m.append(" — raw logs AND indexes.\nType 'yes' to continue: ");
        return Plan::Ask(m);
    }
    Plan::Delete
}

/// Nothing is deleted in a preview, and nothing without a confirmation if it is
/// everything.
pub proof fn wiping_takes_a_confirmation(
    days: int,
    dry_run: bool,
    assume_yes: bool,
    terminal: bool,
    files: Seq<OldFile>,
    stale: nat,
    data_dir: Seq<char>,
    ack_path: Seq<char>,
)
    ensures
        ({
            let p = plan_of(days, dry_run, assume_yes, terminal, files, stale, data_dir, ack_path);
            &&& p is Delete ==> !dry_run
            &&& p is Delete && days == 0 ==> assume_yes
            &&& p is Ask ==> terminal
        }),
{
}

/// Whether an answer is a confirmation.
pub open spec fn confirms(answer: Seq<char>) -> bool {
    lower(trimmed(answer)) == "yes"@
}

/// Whether an answer is a confirmation: `yes` in any case.
pub fn is_confirmed(answer: &str) -> (r: bool)
    ensures
        r == confirms(answer@),
{
    let t = trim_str(answer);
    crate::text::same(to_lower(t.as_str()).as_str(), "yes")
}

/// What was done.
pub open spec fn summary_text(deleted: nat, bytes: int, dirs: nat, dropped: nat) -> Seq<char> {
    "Retention complete: "@ + dec(deleted) + " file(s) deleted, "@ + size_text(bytes) + ", "@ + dec(
        dirs,
    ) + " empty dir(s) removed"@ + if dropped > 0 {
        ", "@ + dec(dropped) + " stale ack line(s) compacted"@
    } else {
        Seq::empty()
    } + ".\n"@
}

/// What was done.
pub fn retention_summary(deleted: usize, bytes: u64, dirs: usize, ack_dropped: usize) -> (r: String)
    ensures
        r@ == summary_text(deleted as nat, bytes as int, dirs as nat, ack_dropped as nat),
{
    let mut r = "Retention complete: ".to_owned();
    r.append(dec_u64(deleted as u64).as_str());
    r.append(" file(s) deleted, ");
    r.append(human_bytes(bytes).as_str());
    r.append(", ");
    r.append(dec_u64(dirs as u64).as_str());
    r.append(" empty dir(s) removed");
    let mut note = String::new();
    assert(note@ =~= Seq::<char>::empty());
    if ack_dropped > 0 {
        note = ", ".to_owned();
        note.append(dec_u64(ack_dropped as u64).as_str());
        note.append(" stale ack line(s) compacted");
    }
    r.append(note.as_str());
    r.append(".\n");
    r
}

} // verus!
