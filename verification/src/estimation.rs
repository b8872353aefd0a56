//! The history of what milestones cost, from which later ones are estimated. It is a file of
//! lines, one record each, and outlives any workspace.

use crate::copied::views;
use crate::json::{
    as_flag, as_number, as_text, as_whole, field, json_printed, json_read, json_text, lemma_member,
    lemma_object_is_ordered, number_clone, number_of, object, ordered, pairs, parse_json, readable,
    reread, reread_as, text, whole, Json, JsonView,
};
use crate::numbers::{decimal, decimal_text};
use crate::order::lemma_before_at;
use crate::paths::{join_path, path_join};
use crate::text::{lemma_lines_append, lemma_one_line, lines, lines_of, opt, texts};
use vstd::arithmetic::div_mod::lemma_small_mod;
use vstd::prelude::*;
use vstd::string::StringExecFns;

verus! {

/// Below this many records there is not enough to go by: one fluke would decide.
pub const MIN_SAMPLES: usize = 3;

/// What a milestone was estimated at, and what it came to. One that did not converge is
/// recorded, too: leaving it out would make every estimate too hopeful.
#[derive(Debug, PartialEq)]
pub struct EstimationRecord {
    pub milestone_name: String,
    pub estimated_effort: u8,
    pub actual_iterations: usize,
    pub max_iter: usize,
    pub converged: bool,
    pub wall_clock_secs: serde_json::Number,
    pub tokens_in: u32,
    pub tokens_out: u32,
    pub timestamp: String,
}

/// A record, by its contents.
pub struct RecordView {
    pub milestone_name: Seq<char>,
    pub estimated_effort: u8,
    pub actual_iterations: usize,
    pub max_iter: usize,
    pub converged: bool,
    pub wall_clock_secs: serde_json::Number,
    pub tokens_in: u32,
    pub tokens_out: u32,
    pub timestamp: Seq<char>,
}

impl View for EstimationRecord {
    type V = RecordView;

    open spec fn view(&self) -> RecordView {
        RecordView {
            milestone_name: self.milestone_name@,
            estimated_effort: self.estimated_effort,
            actual_iterations: self.actual_iterations,
            max_iter: self.max_iter,
            converged: self.converged,
            wall_clock_secs: self.wall_clock_secs,
            tokens_in: self.tokens_in,
            tokens_out: self.tokens_out,
            timestamp: self.timestamp@,
        }
    }
}

/// A record as JSON.
pub open spec fn record_json(r: RecordView) -> JsonView {
    JsonView::Object(
        seq![
            ("actual_iterations"@, JsonView::Number(number_of(r.actual_iterations as u64))),
            ("converged"@, JsonView::Flag(r.converged)),
            ("estimated_effort"@, JsonView::Number(number_of(r.estimated_effort as u64))),
            ("max_iter"@, JsonView::Number(number_of(r.max_iter as u64))),
            ("milestone_name"@, JsonView::Text(r.milestone_name)),
            ("timestamp"@, JsonView::Text(r.timestamp)),
            ("tokens_in"@, JsonView::Number(number_of(r.tokens_in as u64))),
            ("tokens_out"@, JsonView::Number(number_of(r.tokens_out as u64))),
            ("wall_clock_secs"@, JsonView::Number(r.wall_clock_secs)),
        ],
    )
}

/// Whether `serde_json` takes the counts of a record for the integers that they are.
pub open spec fn has_whole_counts(r: RecordView) -> bool {
    &&& whole(number_of(r.actual_iterations as u64)) == Some(r.actual_iterations as u64)
    &&& whole(number_of(r.estimated_effort as u64)) == Some(r.estimated_effort as u64)
    &&& whole(number_of(r.max_iter as u64)) == Some(r.max_iter as u64)
    &&& whole(number_of(r.tokens_in as u64)) == Some(r.tokens_in as u64)
    &&& whole(number_of(r.tokens_out as u64)) == Some(r.tokens_out as u64)
}

/// The low bits of `n`: what is left of it in a type whose largest value is `max`.
pub open spec fn low_bits(n: u64, max: nat) -> nat {
    n as nat % (max + 1)
}

/// The record that a JSON value is. All is needed but the time at which it was made.
pub open spec fn record_of(j: JsonView) -> Option<RecordView> {
    match (
        as_text(field(j, "milestone_name"@)),
        as_whole(field(j, "estimated_effort"@)),
        as_whole(field(j, "actual_iterations"@)),
        as_whole(field(j, "max_iter"@)),
        as_flag(field(j, "converged"@)),
        as_number(field(j, "wall_clock_secs"@)),
        as_whole(field(j, "tokens_in"@)),
        as_whole(field(j, "tokens_out"@)),
    ) {
        (
            Some(name),
            Some(effort),
            Some(iterations),
            Some(max_iter),
            Some(converged),
            Some(secs),
            Some(tokens_in),
            Some(tokens_out),
        ) => Some(
            RecordView {
                milestone_name: name,
                estimated_effort: low_bits(effort, u8::MAX as nat) as u8,
                actual_iterations: low_bits(iterations, usize::MAX as nat) as usize,
                max_iter: low_bits(max_iter, usize::MAX as nat) as usize,
                converged,
                wall_clock_secs: secs,
                tokens_in: low_bits(tokens_in, u32::MAX as nat) as u32,
                tokens_out: low_bits(tokens_out, u32::MAX as nat) as u32,
                timestamp: match as_text(field(j, "timestamp"@)) {
                    Some(time) => time,
                    None => Seq::empty(),
                },
            },
        ),
        _ => None,
    }
}

/// The record that a line is.
pub open spec fn record_in(line: Seq<char>) -> Option<RecordView> {
    match json_read(line) {
        Ok(j) => record_of(j),
        Err(_) => None,
    }
}

/// The records among `lines`: a line that is none is passed over.
pub open spec fn records_in(lines: Seq<Seq<char>>) -> Seq<RecordView>
    decreases lines.len(),
{
    if lines.len() == 0 {
        Seq::empty()
    } else {
        match record_in(lines.last()) {
            Some(r) => records_in(lines.drop_last()).push(r),
            None => records_in(lines.drop_last()),
        }
    }
}

/// The records in a history.
pub open spec fn history_of(text: Seq<char>) -> Seq<RecordView> {
    records_in(lines_of(text))
}

/// What is left of `n` in a `usize`.
pub fn low_usize(n: u64) -> (r: usize)
    ensures
        r == low_bits(n, usize::MAX as nat),
{
    if usize::MAX as u64 == u64::MAX {
        proof {
            lemma_small_mod(n as nat, usize::MAX as nat + 1);
        }
        n as usize
    } else {
        (n % (usize::MAX as u64 + 1)) as usize
    }
}

proof fn lemma_record_is_ordered(r: RecordView)
    ensures
        ordered(record_json(r)),
{
    reveal_strlit("actual_iterations");
    reveal_strlit("converged");
    reveal_strlit("estimated_effort");
    reveal_strlit("max_iter");
    reveal_strlit("milestone_name");
    reveal_strlit("timestamp");
    reveal_strlit("tokens_in");
    reveal_strlit("tokens_out");
    reveal_strlit("wall_clock_secs");
    let members = record_json(r)->Object_0;
    lemma_before_at(members[0].0, members[1].0, 0);
    lemma_before_at(members[1].0, members[2].0, 0);
    lemma_before_at(members[2].0, members[3].0, 0);
    lemma_before_at(members[3].0, members[4].0, 1);
    lemma_before_at(members[4].0, members[5].0, 0);
    lemma_before_at(members[5].0, members[6].0, 1);
    lemma_before_at(members[6].0, members[7].0, 7);
    lemma_before_at(members[7].0, members[8].0, 0);
    lemma_object_is_ordered(members);
}

proof fn lemma_fields(r: RecordView)
    ensures
        ({
            let j = record_json(r);
            &&& field(j, "milestone_name"@) == JsonView::Text(r.milestone_name)
            &&& field(j, "estimated_effort"@) == JsonView::Number(
                number_of(r.estimated_effort as u64),
            )
            &&& field(j, "actual_iterations"@) == JsonView::Number(
                number_of(r.actual_iterations as u64),
            )
            &&& field(j, "max_iter"@) == JsonView::Number(number_of(r.max_iter as u64))
            &&& field(j, "converged"@) == JsonView::Flag(r.converged)
            &&& field(j, "wall_clock_secs"@) == JsonView::Number(r.wall_clock_secs)
            &&& field(j, "tokens_in"@) == JsonView::Number(number_of(r.tokens_in as u64))
            &&& field(j, "tokens_out"@) == JsonView::Number(number_of(r.tokens_out as u64))
            &&& field(j, "timestamp"@) == JsonView::Text(r.timestamp)
        }),
{
    lemma_record_is_ordered(r);
    let members = record_json(r)->Object_0;
    lemma_member(members, 0);
    lemma_member(members, 1);
    lemma_member(members, 2);
    lemma_member(members, 3);
    lemma_member(members, 4);
    lemma_member(members, 5);
    lemma_member(members, 6);
    lemma_member(members, 7);
    lemma_member(members, 8);
}

/// What a record that was printed is read as is that record, with its wall clock as it is read.
proof fn lemma_reread_record(r: RecordView, secs: serde_json::Number, k: JsonView)
    requires
        has_whole_counts(r),
        reread(r.wall_clock_secs) == Some(secs),
        reread_as(record_json(r), k),
    ensures
        record_of(k) == Some(reread_record(r, secs)),
{
    let again = reread_record(r, secs);
    let a = record_json(r)->Object_0;
    let b = record_json(again)->Object_0;
    assert(k is Object);
    let c = k->Object_0;
    reveal_with_fuel(reread_as, 3);
    assert forall|i: int| 0 <= i < c.len() implies c[i] == b[i] by {
        assert(a[i].0 == c[i].0 && reread_as(a[i].1, c[i].1));
        assert(a[i].0 == b[i].0);
    }
    assert(c =~= b);
    lemma_fields(again);
    lemma_small_mod(r.estimated_effort as nat, u8::MAX as nat + 1);
    lemma_small_mod(r.actual_iterations as nat, usize::MAX as nat + 1);
    lemma_small_mod(r.max_iter as nat, usize::MAX as nat + 1);
    lemma_small_mod(r.tokens_in as nat, u32::MAX as nat + 1);
    lemma_small_mod(r.tokens_out as nat, u32::MAX as nat + 1);
}

impl EstimationRecord {
    /// This record as JSON.
    pub fn to_json(&self) -> (r: Json)
        ensures
            r@ == record_json(self@),
            has_whole_counts(self@),
            record_of(r@) == Some(self@),
    {
        let iterations = Json::number(self.actual_iterations as u64);
        let effort = Json::number(self.estimated_effort as u64);
        let max_iter = Json::number(self.max_iter as u64);
        let tokens_in = Json::number(self.tokens_in as u64);
        let tokens_out = Json::number(self.tokens_out as u64);
        let members = vec![
            ("actual_iterations", iterations),
            ("converged", Json::Flag(self.converged)),
            ("estimated_effort", effort),
            ("max_iter", max_iter),
            ("milestone_name", text(self.milestone_name.as_str())),
            ("timestamp", text(self.timestamp.as_str())),
            ("tokens_in", tokens_in),
            ("tokens_out", tokens_out),
            ("wall_clock_secs", Json::Number(number_clone(&self.wall_clock_secs))),
        ];
        assert(pairs(members@) =~= record_json(self@)->Object_0);
        proof {
            lemma_fields(self@);
            lemma_small_mod(self.estimated_effort as nat, u8::MAX as nat + 1);
            lemma_small_mod(self.actual_iterations as nat, usize::MAX as nat + 1);
            lemma_small_mod(self.max_iter as nat, usize::MAX as nat + 1);
            lemma_small_mod(self.tokens_in as nat, u32::MAX as nat + 1);
            lemma_small_mod(self.tokens_out as nat, u32::MAX as nat + 1);
        }
        object(members)
    }

    /// The record that a line is.
    pub fn from_json_line(line: &str) -> (r: Option<EstimationRecord>)
        ensures
            match r {
                Some(record) => record_in(line@) == Some(record@),
                None => record_in(line@) is None,
            },
    {
        let j = match parse_json(line) {
            Ok(j) => j,
            Err(_) => {
                return None;
            },
        };
        let timestamp = match j.field("timestamp").as_text() {
            Some(time) => time.clone(),
            None => {
                let none = String::new();
                assert(none@ =~= Seq::<char>::empty());
                none
            },
        };
        Some(
            EstimationRecord {
                milestone_name: j.field("milestone_name").as_text()?.clone(),
                estimated_effort: (j.field("estimated_effort").as_whole()? % 256) as u8,
                actual_iterations: low_usize(j.field("actual_iterations").as_whole()?),
                max_iter: low_usize(j.field("max_iter").as_whole()?),
                converged: j.field("converged").as_flag()?,
                wall_clock_secs: j.field("wall_clock_secs").as_number()?,
                tokens_in: (j.field("tokens_in").as_whole()? % 0x1_0000_0000) as u32,
                tokens_out: (j.field("tokens_out").as_whole()? % 0x1_0000_0000) as u32,
                timestamp,
            },
        )
    }
}

/// Where the history is kept: `chosen`, or a place under the home directory.
pub fn history_path(chosen: Option<String>, home: Option<String>) -> (r: String)
    ensures
        r@ == (match opt(chosen) {
            Some(path) => path,
            None => path_join(
                match opt(home) {
                    Some(dir) => dir,
                    None => "."@,
                },
                ".local/share/rewriter/estimation-history.jsonl"@,
            ),
        }),
{
    if let Some(path) = chosen {
        return path;
    }
    let dir = match home {
        Some(dir) => dir,
        None => ".".to_owned(),
    };
    join_path(dir.as_str(), ".local/share/rewriter/estimation-history.jsonl")
}

/// The records in a history, the oldest first. A history that is not there is empty.
pub fn load_history(text: Option<String>) -> (r: Vec<EstimationRecord>)
    ensures
        views(r@) == (match opt(text) {
            Some(text) => history_of(text),
            None => Seq::empty(),
        }),
{
    let mut out: Vec<EstimationRecord> = Vec::new();
    assert(views(out@) =~= Seq::<RecordView>::empty());
    let text = match text {
        Some(text) => text,
        None => {
            return out;
        },
    };
    let list = lines(text.as_str());
    let ghost all = lines_of(text@);
    assert(all.take(0) =~= Seq::<Seq<char>>::empty());
    let mut i: usize = 0;
    while i < list.len()
        invariant
            i <= list@.len(),
            texts(list@) == all,
            views(out@) == records_in(all.take(i as int)),
        decreases list@.len() - i,
    {
        let ghost had = out@;
        assert(all.take(i + 1).drop_last() =~= all.take(i as int));
        assert(all.take(i + 1).last() == list@[i as int]@);
        if let Some(record) = EstimationRecord::from_json_line(list[i].as_str()) {
            out.push(record);
            assert(views(out@) =~= views(had).push(record@));
        }
        i += 1;
    }
    assert(all.take(i as int) =~= all);
    out
}

/// A record, with its wall clock as it is read back.
pub open spec fn reread_record(rec: RecordView, secs: serde_json::Number) -> RecordView {
    RecordView { wall_clock_secs: secs, ..rec }
}

/// What is added to the history for one record. A history that ends in a whole line then holds
/// one record more: this one, with its wall clock as it is read back. Of a wall clock that is
/// not read back, such as one at the end of the range of numbers, nothing is said.
pub fn record(rec: &EstimationRecord) -> (r: String)
    ensures
        r@ == json_printed(record_json(rec@)) + "\n"@,
        reread(rec.wall_clock_secs) matches Some(secs) ==> forall|text: Seq<char>|
            (text.len() == 0 || text.last() == '\n') ==> #[trigger] history_of(text + r@)
                == history_of(text).push(reread_record(rec@, secs)),
        whole(rec.wall_clock_secs) is Some ==> reread(rec.wall_clock_secs) == Some(
            rec.wall_clock_secs,
        ),
{
    let j = rec.to_json();
    let line = json_text(&j);
    let ghost printed = line@;
    let r = line.concat("\n");
    proof {
        lemma_record_is_ordered(rec@);
        reveal_strlit("\n");
        assert(r@ =~= printed.push('\n'));
        if let Some(secs) = reread(rec.wall_clock_secs) {
            assert(readable(j@, 100)) by {
                reveal_with_fuel(readable, 2);
                let members = record_json(rec@)->Object_0;
                assert forall|i: int| 0 <= i < members.len() implies readable(
                    (#[trigger] members[i]).1,
                    99,
                ) by {
                    assert(members[8].1 == JsonView::Number(rec.wall_clock_secs));
                }
            }
            let k = choose|k: JsonView|
                json_read(printed) == Ok::<JsonView, Seq<char>>(k) && #[trigger] reread_as(j@, k);
            lemma_reread_record(rec@, secs, k);
            assert(printed.len() > 0 ==> printed.contains(printed.last()));
            lemma_one_line(printed);
            assert forall|text: Seq<char>|
                (text.len() == 0 || text.last() == '\n') implies #[trigger] history_of(text + r@)
                == history_of(text).push(reread_record(rec@, secs)) by {
                lemma_lines_append(text, r@);
                let whole_text = lines_of(text + r@);
                assert(whole_text =~= lines_of(text).push(printed));
                assert(whole_text.drop_last() =~= lines_of(text));
            }
        }
    }
    r
}

/// Whether there are enough records to go by.
pub fn is_calibrated(samples: usize) -> (r: bool)
    ensures
        r == (samples >= MIN_SAMPLES),
{
    samples >= MIN_SAMPLES
}

/// What an estimate rests on.
pub fn confidence(calibrated: bool, sample_size: usize) -> (r: String)
    ensures
        r@ == (if calibrated {
            "calibrated from "@ + decimal(sample_size as nat) + " past milestone(s)"@
        } else {
            "cold start, no history yet — rough guess"@
        }),
{
    if calibrated {
        "calibrated from ".to_owned().concat(decimal_text(sample_size as u64).as_str()).concat(
            " past milestone(s)",
        )
    } else {
        "cold start, no history yet — rough guess".to_owned()
    }
}

} // verus!
