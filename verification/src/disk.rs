//! The save protocol's atomicity, as a model: a save writes the whole
//! encoding to a sibling temporary path, forces it to persistent storage,
//! and only then renames it over the target. A crash can stop a save at
//! any point; the target either keeps its old content or holds the new
//! content in full — a reader never sees a torn file.
use vstd::prelude::*;

use crate::codec::{enc_records, lemma_parse_encode_records, parse_records};
use crate::record::RecordV;

verus! {

/// What is on disk: the committed target file and, transiently, the
/// temporary sibling a save writes before renaming.
pub struct DiskV {
    pub target: Seq<char>,
    pub temp: Option<Seq<char>>,
}

/// How far one attempted save got.
pub enum SaveOutcome {
    /// The process stopped after `written` characters reached the
    /// temporary file: the rename never happened.
    Interrupted { written: nat },
    /// The temporary file was written in full, forced to storage, and
    /// renamed over the target.
    Renamed,
}

/// One attempted save of `data`. Only a completed rename touches the
/// target; an interruption leaves at most a partial temporary file.
pub open spec fn save_attempt(d: DiskV, data: Seq<char>, o: SaveOutcome) -> DiskV {
    match o {
        SaveOutcome::Interrupted { written } => DiskV {
            target: d.target,
            temp: Some(
                if written <= data.len() {
                    data.take(written as int)
                } else {
                    data
                },
            ),
        },
        SaveOutcome::Renamed => DiskV { target: data, temp: None },
    }
}

/// A sequence of attempted saves, each with its own data and outcome.
pub open spec fn run_saves(d: DiskV, attempts: Seq<(Seq<char>, SaveOutcome)>) -> DiskV
    decreases attempts.len(),
{
    if attempts.len() == 0 {
        d
    } else {
        run_saves(
            save_attempt(d, attempts[0].0, attempts[0].1),
            attempts.subrange(1, attempts.len() as int),
        )
    }
}

/// One save is atomic: whatever the outcome, the target afterwards is the
/// old content or the new content, never a mixture or a prefix.
pub proof fn lemma_save_atomic(d: DiskV, data: Seq<char>, o: SaveOutcome)
    ensures
        save_attempt(d, data, o).target == d.target || save_attempt(d, data, o).target == data,
{
}

/// Any number of saves, interrupted anywhere, leave the target holding the
/// original content or the full data of one of the attempts.
pub proof fn lemma_saves_atomic(d: DiskV, attempts: Seq<(Seq<char>, SaveOutcome)>)
    ensures
        run_saves(d, attempts).target == d.target || exists|k: int|
            0 <= k < attempts.len() && run_saves(d, attempts).target == attempts[k].0,
    decreases attempts.len(),
{
    if attempts.len() > 0 {
        let d1 = save_attempt(d, attempts[0].0, attempts[0].1);
        let rest = attempts.subrange(1, attempts.len() as int);
        lemma_save_atomic(d, attempts[0].0, attempts[0].1);
        lemma_saves_atomic(d1, rest);
        if run_saves(d, attempts).target != d.target {
            if run_saves(d1, rest).target == d1.target {
                assert(run_saves(d, attempts).target == attempts[0].0);
            } else {
                let k = choose|k: int|
                    0 <= k < rest.len() && run_saves(d1, rest).target == rest[k].0;
                assert(attempts[k + 1].0 == rest[k].0);
                assert(run_saves(d, attempts).target == attempts[k + 1].0);
            }
        }
    }
}

/// The attempts of a store that always writes canonical encodings.
pub open spec fn record_saves(attempts: Seq<(Seq<RecordV>, SaveOutcome)>) -> Seq<
    (Seq<char>, SaveOutcome),
> {
    attempts.map_values(|a: (Seq<RecordV>, SaveOutcome)| (enc_records(a.0), a.1))
}

/// Atomicity at the record level: start from a committed record list, run
/// any number of saves interrupted anywhere, and a load still decodes the
/// target — to the original records or to the records of one attempt,
/// whole, never to a truncated or partial list.
pub proof fn lemma_load_after_interrupted_saves(
    rs0: Seq<RecordV>,
    d: DiskV,
    attempts: Seq<(Seq<RecordV>, SaveOutcome)>,
)
    requires
        d.target == enc_records(rs0),
    ensures
        parse_records(run_saves(d, record_saves(attempts)).target) == Some(rs0) || exists|k: int|
            0 <= k < attempts.len() && parse_records(run_saves(d, record_saves(attempts)).target)
                == Some(#[trigger] attempts[k].0),
{
    lemma_saves_atomic(d, record_saves(attempts));
    let t = run_saves(d, record_saves(attempts)).target;
    if t == d.target {
        lemma_parse_encode_records(rs0);
    } else {
        let k = choose|k: int|
            0 <= k < record_saves(attempts).len() && t == record_saves(attempts)[k].0;
        assert(record_saves(attempts)[k].0 == enc_records(attempts[k].0));
        lemma_parse_encode_records(attempts[k].0);
        assert(parse_records(t) == Some(attempts[k].0));
    }
}

} // verus!
