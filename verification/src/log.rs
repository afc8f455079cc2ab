//! A file log that rotates by size, so that it cannot grow without bound.
//!
//! Logging must not be able to take the daemon down: nothing here fails, and a log that was
//! never opened is left alone.
use crate::text::{decimal, decimal_is_digits, decimal_reads_back, push_decimal, unsigned};
use vstd::prelude::*;

verus! {

broadcast use vstd::string::group_string_axioms;

/// The log is rotated once its active file has so many bytes.
pub const MAX_BYTES: u64 = 262144;

/// How many rotated generations are kept.
pub const KEEP: u32 = 3;

/// The directory of the log.
pub fn log_dir() -> (path: String)
    ensures
        path@ == "/data/adb/wingsvd"@,
{
    "/data/adb/wingsvd".to_string()
}

/// The path of a generation of the log: the active file is number 0.
pub open spec fn generation(number: nat) -> Seq<char> {
    if number == 0 {
        "/data/adb/wingsvd/wingsvd.log"@
    } else {
        "/data/adb/wingsvd/wingsvd.log"@ + "."@ + decimal(number)
    }
}

/// The path of a generation of the log.
pub fn log_path(number: u32) -> (path: String)
    ensures
        path@ == generation(number as nat),
{
    let mut path = "/data/adb/wingsvd/wingsvd.log".to_string();
    if number > 0 {
        path.push_str(".");
        push_decimal(&mut path, number as u64);
    }
    path
}

/// What a line of the log does.
#[derive(Debug, PartialEq, Eq)]
pub enum LogStep {
    /// Nothing: no log is open.
    Skip,
    /// Append a line to the active file.
    Append(String),
    /// Rotate the log, open its active file anew and append a line to it.
    RotateAndAppend(String),
}

/// The texts of a step.
pub enum LogStepView {
    Skip,
    Append(Seq<char>),
    RotateAndAppend(Seq<char>),
}

impl View for LogStep {
    type V = LogStepView;

    open spec fn view(&self) -> LogStepView {
        match *self {
            LogStep::Skip => LogStepView::Skip,
            LogStep::Append(line) => LogStepView::Append(line@),
            LogStep::RotateAndAppend(line) => LogStepView::RotateAndAppend(line@),
        }
    }
}

/// A line of the log: the time in seconds, which is 0 where the clock tells none, and a message.
pub open spec fn log_line(secs: Option<u64>, message: Seq<char>) -> Seq<char> {
    let since = match secs {
        Some(known) => known as nat,
        None => 0,
    };
    "["@ + decimal(since) + "] "@ + message + "\n"@
}

/// Whether an active file of a size that is perhaps unknown is full.
pub open spec fn is_full(size: Option<u64>) -> bool {
    size matches Some(known) && known >= MAX_BYTES
}

/// What a message to the log does.
pub open spec fn log_step(
    open: bool,
    size: Option<u64>,
    secs: Option<u64>,
    message: Seq<char>,
) -> LogStepView {
    if !open {
        LogStepView::Skip
    } else if is_full(size) {
        LogStepView::RotateAndAppend(log_line(secs, message))
    } else {
        LogStepView::Append(log_line(secs, message))
    }
}

/// Tells what a message to the log does: `size` is that of the active file and `secs` the time,
/// where they are known.
pub fn write(open: bool, size: Option<u64>, secs: Option<u64>, msg: &str) -> (step: LogStep)
    ensures
        step@ == log_step(open, size, secs, msg@),
{
    if !open {
        return LogStep::Skip;
    }
    let since: u64 = match secs {
        Some(known) => known,
        None => 0,
    };
    let mut line = "[".to_string();
    push_decimal(&mut line, since);
    line.push_str("] ");
    line.push_str(msg);
    line.push_str("\n");
    let too_big = match size {
        Some(known) => known >= MAX_BYTES,
        None => false,
    };
    if too_big {
        LogStep::RotateAndAppend(line)
    } else {
        LogStep::Append(line)
    }
}

/// One change of the files of the log. None of them decides anything by its failure.
#[derive(Debug, PartialEq, Eq)]
pub enum FileOp {
    Remove { path: String },
    /// Rename a file, only if it exists where `checked` says so.
    Rename { from: String, to: String, checked: bool },
}

/// The texts of a change.
pub enum FileOpView {
    Remove { path: Seq<char> },
    Rename { from: Seq<char>, to: Seq<char>, checked: bool },
}

impl View for FileOp {
    type V = FileOpView;

    open spec fn view(&self) -> FileOpView {
        match *self {
            FileOp::Remove { path } => FileOpView::Remove { path: path@ },
            FileOp::Rename { from, to, checked } => FileOpView::Rename {
                from: from@,
                to: to@,
                checked,
            },
        }
    }
}

/// The changes that rotate the log: the oldest generation is dropped, and then each of the
/// others becomes one older, the oldest of them first.
pub open spec fn rotation() -> Seq<FileOpView> {
    seq![FileOpView::Remove { path: generation(KEEP as nat) }] + Seq::new(
        (KEEP - 1) as nat,
        |i: int|
            FileOpView::Rename {
                from: generation((KEEP - 1 - i) as nat),
                to: generation((KEEP - i) as nat),
                checked: true,
            },
    ) + seq![FileOpView::Rename { from: generation(0), to: generation(1), checked: false }]
}

/// The texts of changes.
pub open spec fn op_texts(ops: Seq<FileOp>) -> Seq<FileOpView> {
    Seq::new(ops.len(), |i: int| ops[i]@)
}

/// Lists the changes that rotate the log.
pub fn rotate() -> (ops: Vec<FileOp>)
    ensures
        op_texts(ops@) == rotation(),
{
    let mut ops: Vec<FileOp> = Vec::new();
    ops.push(FileOp::Remove { path: log_path(KEEP) });
    let mut i: u32 = KEEP - 1;
    assert(op_texts(ops@) =~= rotation().take(1));
    while i > 0
        invariant
            i < KEEP,
            op_texts(ops@) == rotation().take(KEEP - i),
        decreases i,
    {
        let ghost made = op_texts(ops@);
        ops.push(FileOp::Rename { from: log_path(i), to: log_path(i + 1), checked: true });
        assert(op_texts(ops@) =~= made.push(ops@.last()@));
        i = i - 1;
        assert(op_texts(ops@) =~= rotation().take(KEEP - i));
    }
    let ghost made = op_texts(ops@);
    ops.push(FileOp::Rename { from: log_path(0), to: log_path(1), checked: false });
    assert(op_texts(ops@) =~= made.push(ops@.last()@));
    assert(op_texts(ops@) =~= rotation());
    ops
}

/// The files of a directory after a change that the file system carries out.
pub open spec fn changed(files: Map<Seq<char>, Seq<u8>>, op: FileOpView) -> Map<
    Seq<char>,
    Seq<u8>,
> {
    match op {
        FileOpView::Remove { path } => files.remove(path),
        FileOpView::Rename { from, to, .. } => if files.contains_key(from) {
            files.remove(from).insert(to, files[from])
        } else {
            files
        },
    }
}

/// The files after several changes.
pub open spec fn all_changed(files: Map<Seq<char>, Seq<u8>>, ops: Seq<FileOpView>) -> Map<
    Seq<char>,
    Seq<u8>,
>
    decreases ops.len(),
{
    if ops.len() == 0 {
        files
    } else {
        changed(all_changed(files, ops.drop_last()), ops.last())
    }
}

proof fn lemma_generations_differ()
    ensures
        forall|a: nat, b: nat| a <= KEEP && b <= KEEP && a != b ==> #[trigger] generation(a)
            != #[trigger] generation(b),
{
    reveal_strlit(".");
    let log = "/data/adb/wingsvd/wingsvd.log"@;
    assert forall|a: nat| 0 < a <= KEEP implies #[trigger] generation(a).len() == log.len() + 2
        && generation(a).last() == ('0' as u8 + a) as u8 as char by {
        assert(decimal(a).len() == 1);
        assert(generation(a).last() == decimal(a)[0]);
    }
    assert forall|a: nat, b: nat| a <= KEEP && b <= KEEP && a != b implies #[trigger] generation(a)
        != #[trigger] generation(b) by {
        if a > 0 && b > 0 {
            assert(generation(a).last() != generation(b).last());
        }
    }
}

/// The files after the rotation, generation by generation: each generation holds what the one
/// before it held, the active file is gone, the oldest generation is dropped, and no other file
/// is touched. So no more than `KEEP` generations stay.
pub proof fn rotation_shifts_the_generations(files: Map<Seq<char>, Seq<u8>>)
    ensures
        ({
            let after = all_changed(files, rotation());
            &&& !after.contains_key(generation(0))
            &&& forall|g: nat|
                1 <= g <= KEEP ==> {
                    &&& after.contains_key(#[trigger] generation(g)) == files.contains_key(
                        generation((g - 1) as nat),
                    )
                    &&& files.contains_key(generation((g - 1) as nat)) ==> after[generation(g)]
                        == files[generation((g - 1) as nat)]
                }
            &&& forall|path: Seq<char>|
                (forall|g: nat| g <= KEEP ==> path != #[trigger] generation(g)) ==> (
                #[trigger] after.contains_key(path) == files.contains_key(path) && (
                files.contains_key(path) ==> after[path] == files[path]))
        }),
{
    lemma_generations_differ();
    let ops = rotation();
    assert(ops.len() == 4);
    let first = ops.take(1);
    let second = ops.take(2);
    let third = ops.take(3);
    assert(ops.drop_last() =~= third);
    assert(third.drop_last() =~= second);
    assert(second.drop_last() =~= first);
    assert(first.drop_last() =~= seq![]);
    assert(all_changed(files, seq![]) == files);
    let a = changed(files, ops[0]);
    let b = changed(a, ops[1]);
    let c = changed(b, ops[2]);
    let d = changed(c, ops[3]);
    assert(all_changed(files, first) == a);
    assert(all_changed(files, second) == b);
    assert(all_changed(files, third) == c);
    assert(all_changed(files, ops) == d);
    assert(generation(0) != generation(1) && generation(0) != generation(2) && generation(0)
        != generation(3));
    assert(generation(1) != generation(2) && generation(1) != generation(3) && generation(2)
        != generation(3));
    assert(!d.contains_key(generation(0)));
    assert forall|g: nat| 1 <= g <= KEEP implies {
        &&& d.contains_key(#[trigger] generation(g)) == files.contains_key(
            generation((g - 1) as nat),
        )
        &&& files.contains_key(generation((g - 1) as nat)) ==> d[generation(g)]
            == files[generation((g - 1) as nat)]
    } by {
        assert(g == 1 || g == 2 || g == 3);
    }
}

/// The size of the active file after a step.
pub open spec fn size_after(size: nat, step: LogStepView) -> nat {
    match step {
        LogStepView::Skip => size,
        LogStepView::Append(line) => size + vstd::utf8::encode_utf8(line).len(),
        LogStepView::RotateAndAppend(line) => vstd::utf8::encode_utf8(line).len(),
    }
}

/// The active file of an open log never exceeds the size at which it is rotated by as much as
/// one line.
pub proof fn log_size_is_bounded(size: u64, secs: Option<u64>, message: Seq<char>)
    ensures
        size_after(size as nat, log_step(true, Some(size), secs, message)) < MAX_BYTES
            + vstd::utf8::encode_utf8(log_line(secs, message)).len(),
{
}

/// A line of the log reads back: the time stands in brackets, the message follows it as it is,
/// and a newline ends the line.
pub proof fn log_lines_read_back(secs: Option<u64>, message: Seq<char>) -> (end: int)
    ensures
        ({
            let line = log_line(secs, message);
            let time = match secs {
                Some(known) => known as nat,
                None => 0,
            };
            &&& 1 < end < line.len() - 2
            &&& line[0] == '['
            &&& unsigned(line.subrange(1, end), u64::MAX as nat) == Some(time)
            &&& line[end] == ']' && line[end + 1] == ' '
            &&& line.subrange(end + 2, line.len() - 1) == message
            &&& line.last() == '\n'
        }),
{
    reveal_strlit("[");
    reveal_strlit("] ");
    reveal_strlit("\n");
    let line = log_line(secs, message);
    let time = match secs {
        Some(known) => known as nat,
        None => 0,
    };
    decimal_reads_back(time, u64::MAX as nat);
    decimal_is_digits(time, 0);
    let end = 1 + decimal(time).len() as int;
    assert(line.subrange(1, end) =~= decimal(time));
    assert(line.subrange(end + 2, line.len() - 1) =~= message);
    end
}

/// An open log is written to whatever happens, and is rotated first exactly if its active file
/// is known to have 256 KiB or more. A closed one is left alone.
pub proof fn open_logs_are_written(size: Option<u64>, secs: Option<u64>, message: Seq<char>)
    ensures
        log_step(true, size, secs, message) == (if size matches Some(known) && known >= 256 * 1024 {
            LogStepView::RotateAndAppend(log_line(secs, message))
        } else {
            LogStepView::Append(log_line(secs, message))
        }),
        log_step(false, size, secs, message) == LogStepView::Skip,
{
}

} // verus!
