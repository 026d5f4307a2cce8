//! What is handed to the results sink: the record of the run, and the
//! samples in batches, each batch with the text of one insert statement.
//!
//! The sink takes many rows per statement, so that tens of thousands of
//! samples cost tens of round trips. Talking to the sink is left to whoever
//! holds the connection.

use vstd::prelude::*;
use vstd::string::StringExecFns;
use crate::duration::NANOS_PER_SEC;
use crate::results::Results;

verus! {

/// The largest number of samples in one statement.
pub const BATCH_SIZE: usize = 1000;

/// The parameters that one sample takes in a statement: the run, the
/// latency, the outcome and the time of storing.
pub const PARAMS_PER_SAMPLE: u128 = 4;

/// The statement that stores the run and answers with its identifier. Its
/// parameters are the fields of a [`RunRecord`], in their order.
pub const RUN_INSERT: &'static str =
    "INSERT INTO benchmark_runs (scenario, protocol, client, concurrency, duration_sec, cpu_usage_avg, memory_mb_avg, memory_mb_peak) VALUES ($1, $2, $3, $4, $5, $6, $7, $8) RETURNING id";

/// The start of every statement that stores samples.
pub const SAMPLE_INSERT: &'static str =
    "INSERT INTO benchmark_samples (run_id, latency_ms, success, timestamp) VALUES ";

/// What is stored of a run besides its samples.
#[derive(Clone, Debug, PartialEq, Eq)]
pub struct RunRecord {
    pub scenario: String,
    pub protocol: String,
    /// The name of this client: `rust-` and the protocol.
    pub client: String,
    pub concurrency: usize,
    /// The window in whole seconds, rounded down.
    pub duration_sec: u128,
    /// Mean CPU load, in hundredths of a percent.
    pub cpu_avg: u32,
    /// Mean resident memory, in bytes.
    pub mem_avg: u64,
    /// Largest resident memory, in bytes.
    pub mem_peak: u64,
}

/// The samples `start..end` of a record.
#[derive(Clone, Copy, Debug, PartialEq, Eq)]
pub struct Batch {
    pub start: usize,
    pub end: usize,
}

/// How many batches `total` samples make.
pub open spec fn batch_count(total: nat) -> nat {
    ((total + BATCH_SIZE - 1) / (BATCH_SIZE as int)) as nat
}

/// The batch with this index among those of `total` samples.
pub open spec fn batch_at(total: nat, index: nat) -> Batch
    recommends
        index < batch_count(total),
{
    let start: int = index * BATCH_SIZE;
    let end: int = if start + BATCH_SIZE <= total {
        start + BATCH_SIZE
    } else {
        total as int
    };
    Batch { start: start as usize, end: end as usize }
}

/// The character of a digit.
pub open spec fn digit_char(digit: nat) -> char
    recommends
        digit < 10,
{
    if digit == 0 {
        '0'
    } else if digit == 1 {
        '1'
    } else if digit == 2 {
        '2'
    } else if digit == 3 {
        '3'
    } else if digit == 4 {
        '4'
    } else if digit == 5 {
        '5'
    } else if digit == 6 {
        '6'
    } else if digit == 7 {
        '7'
    } else if digit == 8 {
        '8'
    } else {
        '9'
    }
}

/// A number as it is written in base ten.
pub open spec fn decimal(n: nat) -> Seq<char>
    decreases n,
{
    if n < 10 {
        seq![digit_char(n)]
    } else {
        decimal(n / 10).push(digit_char(n % 10))
    }
}

/// The placeholders of the sample in row `row` of a statement: its four
/// parameters, numbered on from those of the rows before it.
pub open spec fn row_placeholders(row: nat) -> Seq<char> {
    let first: nat = (row * PARAMS_PER_SAMPLE + 1) as nat;
    "($"@ + decimal(first) + ", $"@ + decimal(first + 1) + ", $"@ + decimal(first + 2) + ", $"@
        + decimal(first + 3) + ")"@
}

/// The placeholders of `rows` samples, row after row, with `, ` in between.
pub open spec fn placeholders(rows: nat) -> Seq<char>
    decreases rows,
{
    if rows == 0 {
        Seq::empty()
    } else if rows == 1 {
        row_placeholders(0)
    } else {
        placeholders((rows - 1) as nat) + ", "@ + row_placeholders((rows - 1) as nat)
    }
}

/// The statement that stores `rows` samples.
pub open spec fn sample_insert_text(rows: nat) -> Seq<char> {
    SAMPLE_INSERT@ + placeholders(rows)
}

/// The batches cover the samples: the first begins with the first sample,
/// each begins where the one before it ended, the last ends with the last
/// sample; none is empty and none holds more than [`BATCH_SIZE`].
pub proof fn lemma_batches_cover(total: nat, index: nat)
    requires
        total <= usize::MAX,
        index < batch_count(total),
    ensures
        batch_at(total, 0).start == 0,
        batch_at(total, index).start < batch_at(total, index).end <= total,
        batch_at(total, index).end - batch_at(total, index).start <= BATCH_SIZE,
        index + 1 < batch_count(total) ==> batch_at(total, index).end == batch_at(
            total,
            index + 1,
        ).start && batch_at(total, index).end - batch_at(total, index).start == BATCH_SIZE,
        index + 1 == batch_count(total) ==> batch_at(total, index).end == total,
{
}

/// Without samples there is no batch.
pub proof fn lemma_no_samples_no_batch()
    ensures
        batch_count(0) == 0,
{
}

/// The batches in which `total` samples are stored, in order.
pub fn batches(total: usize) -> (list: Vec<Batch>)
    ensures
        list@.len() == batch_count(total as nat),
        forall|i: int| 0 <= i < list@.len() ==> list@[i] == batch_at(total as nat, i as nat),
{
    let mut list: Vec<Batch> = Vec::new();
    let mut start: usize = 0;
    while start < total
        invariant
            start <= total,
            start == list@.len() * BATCH_SIZE || start == total,
            start == total ==> list@.len() == batch_count(total as nat),
            start < total ==> list@.len() < batch_count(total as nat),
            forall|i: int| 0 <= i < list@.len() ==> list@[i] == batch_at(total as nat, i as nat),
        decreases total - start,
    {
        let end: usize = if total - start >= BATCH_SIZE {
            start + BATCH_SIZE
        } else {
            total
        };
        list.push(Batch { start, end });
        start = end;
    }
    list
}

/// What is stored of a run besides its samples.
pub fn run_record(
    scenario: &str,
    protocol: &str,
    concurrency: usize,
    results: &Results,
) -> (record: RunRecord)
    ensures
        record.scenario@ == scenario@,
        record.protocol@ == protocol@,
        record.client@ == "rust-"@ + protocol@,
        record.concurrency == concurrency,
        record.duration_sec == results@.window() / (NANOS_PER_SEC as nat),
        record.cpu_avg == results@.avg_cpu(),
        record.mem_avg == results@.avg_mem(),
        record.mem_peak == results@.peak_mem(),
{
    let mut client = String::from_str("rust-");
    client.append(protocol);
    RunRecord {
        scenario: String::from_str(scenario),
        protocol: String::from_str(protocol),
        client,
        concurrency,
        duration_sec: results.window() / NANOS_PER_SEC,
        cpu_avg: results.avg_cpu(),
        mem_avg: results.avg_mem(),
        mem_peak: results.peak_mem(),
    }
}

fn digit_text(digit: u8) -> (text: &'static str)
    requires
        digit < 10,
    ensures
        text@ == seq![digit_char(digit as nat)],
{
    proof {
        reveal_strlit("0");
        reveal_strlit("1");
        reveal_strlit("2");
        reveal_strlit("3");
        reveal_strlit("4");
        reveal_strlit("5");
        reveal_strlit("6");
        reveal_strlit("7");
        reveal_strlit("8");
        reveal_strlit("9");
    }
    let text = match digit {
        0 => "0",
        1 => "1",
        2 => "2",
        3 => "3",
        4 => "4",
        5 => "5",
        6 => "6",
        7 => "7",
        8 => "8",
        _ => "9",
    };
    assert(text@ =~= seq![digit_char(digit as nat)]);
    text
}

/// Appends `n` in base ten.
fn push_decimal(text: &mut String, n: u128)
    ensures
        final(text)@ == old(text)@ + decimal(n as nat),
    decreases n,
{
    if n >= 10 {
        push_decimal(text, n / 10);
    }
    text.append(digit_text((n % 10) as u8));
    proof {
        let digit = seq![digit_char((n % 10) as nat)];
        if n >= 10 {
            assert(decimal((n / 10) as nat).push(digit_char((n % 10) as nat)) == decimal(
                (n / 10) as nat,
            ) + digit);
            assert(old(text)@ + decimal((n / 10) as nat) + digit == old(text)@ + (decimal(
                (n / 10) as nat,
            ) + digit));
        }
    }
}

/// Appends the placeholders of the sample in row `row`.
fn push_row(text: &mut String, row: usize)
    ensures
        final(text)@ == old(text)@ + row_placeholders(row as nat),
{
    let first: u128 = row as u128 * PARAMS_PER_SAMPLE + 1;
    let ghost before = text@;
    text.append("($");
    push_decimal(text, first);
    text.append(", $");
    push_decimal(text, first + 1);
    text.append(", $");
    push_decimal(text, first + 2);
    text.append(", $");
    push_decimal(text, first + 3);
    text.append(")");
    proof {
        let f = first as nat;
        assert(text@ == before + "($"@ + decimal(f) + ", $"@ + decimal(f + 1) + ", $"@ + decimal(
            f + 2,
        ) + ", $"@ + decimal(f + 3) + ")"@);
        assert(text@ == before + row_placeholders(row as nat));
    }
}

/// The text of the statement that stores `rows` samples: the fixed start,
/// then for each sample its four placeholders in brackets, numbered from
/// `$1` on, the rows parted by `, `.
pub fn sample_insert(rows: usize) -> (text: String)
    ensures
        text@ == sample_insert_text(rows as nat),
{
    let mut text = String::from_str(SAMPLE_INSERT);
    let mut row: usize = 0;
    while row < rows
        invariant
            row <= rows,
            text@ == SAMPLE_INSERT@ + placeholders(row as nat),
        decreases rows - row,
    {
        let ghost before = text@;
        if row > 0 {
            text.append(", ");
        }
        push_row(&mut text, row);
        proof {
            let done = placeholders(row as nat);
            let this = row_placeholders(row as nat);
            if row == 0 {
                assert(done + this == this);
                assert(SAMPLE_INSERT@ + done + this == SAMPLE_INSERT@ + (done + this));
            } else {
                assert(SAMPLE_INSERT@ + done + ", "@ + this == SAMPLE_INSERT@ + (done + ", "@
                    + this));
            }
        }
        row = row + 1;
    }
    text
}

} // verus!
