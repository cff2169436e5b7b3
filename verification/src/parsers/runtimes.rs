//! The runtime log: reports of runtime errors, each over several lines, are
//! counted by message and proc name and listed with the most frequent first.

use crate::parsers::ip_filtering::{filter_ips, redacted};
use crate::pattern::{captured, replaced, Matcher};
use crate::text::{
    chars_of, cow_chars, cow_str, decimal, join, join_with, lines, lines_of, push_decimal, push_str,
    str_equals, string_of, views,
};
use std::borrow::Cow;
use vstd::prelude::*;

verus! {

/// The line that opens a report and gives the message.
pub const ANNOUNCEMENT_PATTERN: &'static str = r"^\[.+?\] (?:RUNTIME: )?runtime error: (.*)$";

/// The line that names the proc or verb.
pub const PROC_NAME_PATTERN: &'static str = r"^ \- (?:proc|verb) name: (.+)$";

/// A line that gives one detail: a field name and a value.
pub const FIELD_PATTERN: &'static str = r"^ \-   (.+?): (.+)$";

/// What identifies a runtime error.
#[derive(Clone, Debug, PartialEq, Eq)]
pub struct CondensedRuntimeKey {
    pub message: String,
    pub proc_name: String,
}

/// The details of the first report of a runtime error, and how often it was
/// reported.
#[derive(Clone, Debug, PartialEq, Eq)]
pub struct CondensedRuntimeValue {
    pub source_file: Option<String>,
    pub usr: String,
    pub src: String,
    pub src_loc: Option<String>,
    pub count: u64,
}

/// One runtime error of the summary.
#[derive(Clone, Debug, PartialEq, Eq)]
pub struct CondensedRuntime {
    pub key: CondensedRuntimeKey,
    pub value: CondensedRuntimeValue,
}

/// The summary: how many reports were counted, and the runtime errors.
#[derive(Clone, Debug, PartialEq, Eq)]
pub struct CondensedRuntimes {
    pub total_count: u64,
    pub runtimes: Vec<CondensedRuntime>,
}

/// One runtime error, as contracts speak of it.
pub struct Record {
    pub message: Seq<char>,
    pub proc_name: Seq<char>,
    pub source_file: Option<Seq<char>>,
    pub usr: Seq<char>,
    pub src: Seq<char>,
    pub src_loc: Option<Seq<char>>,
    pub count: nat,
}

/// The summary, as contracts speak of it.
pub struct Report {
    pub total_count: nat,
    pub runtimes: Seq<Record>,
}

impl View for CondensedRuntime {
    type V = Record;

    open spec fn view(&self) -> Record {
        Record {
            message: self.key.message@,
            proc_name: self.key.proc_name@,
            source_file: self.value.source_file.deep_view(),
            usr: self.value.usr@,
            src: self.value.src@,
            src_loc: self.value.src_loc.deep_view(),
            count: self.value.count as nat,
        }
    }
}

/// The views of a sequence of runtime errors.
pub open spec fn records_of(runtimes: Seq<CondensedRuntime>) -> Seq<Record> {
    runtimes.map_values(|r: CondensedRuntime| r@)
}

impl View for CondensedRuntimes {
    type V = Report;

    open spec fn view(&self) -> Report {
        Report { total_count: self.total_count as nat, runtimes: records_of(self.runtimes@) }
    }
}

/// The message that `line` announces, if it opens a report.
pub open spec fn announcement(line: Seq<char>) -> Option<Seq<char>> {
    captured(ANNOUNCEMENT_PATTERN@, line, 1)
}

/// The proc or verb that `line` names, if it names one.
pub open spec fn proc_name(line: Seq<char>) -> Option<Seq<char>> {
    captured(PROC_NAME_PATTERN@, line, 1)
}

/// The value that `line` gives for the field `name`, if it gives one.
pub open spec fn field_value(line: Seq<char>, name: Seq<char>) -> Option<Seq<char>> {
    match (captured(FIELD_PATTERN@, line, 1), captured(FIELD_PATTERN@, line, 2)) {
        (Some(found), Some(value)) => if found == name {
            Some(value)
        } else {
            None
        },
        _ => None,
    }
}

/// The value that the line at `pos` gives for the field `name`. Where this is
/// `None`, the line is left for whatever reads next.
pub open spec fn read_field(lines: Seq<Seq<char>>, pos: int, name: Seq<char>) -> Option<
    Seq<char>,
> {
    if 0 <= pos < lines.len() {
        field_value(lines[pos], name)
    } else {
        None
    }
}

/// The details that follow the proc name.
pub struct Details {
    pub source_file: Option<Seq<char>>,
    pub usr: Seq<char>,
    pub src: Seq<char>,
    pub src_loc: Option<Seq<char>>,
}

/// The details read from the lines at `pos` on, and the position after the
/// lines that were taken. The fields come in a fixed order: `source file`,
/// which may be missing, `usr` and `src`, without which there are no
/// details, and `src.loc`, which may be missing. A line is taken only where
/// it gives the field that is due.
pub open spec fn read_details(lines: Seq<Seq<char>>, pos: int) -> (Option<Details>, int) {
    let source_file = read_field(lines, pos, "source file"@);
    let at_usr = if source_file is Some {
        pos + 1
    } else {
        pos
    };
    match read_field(lines, at_usr, "usr"@) {
        None => (None, at_usr),
        Some(usr) => match read_field(lines, at_usr + 1, "src"@) {
            None => (None, at_usr + 1),
            Some(src) => {
                let src_loc = read_field(lines, at_usr + 2, "src.loc"@);
                let end = if src_loc is Some {
                    at_usr + 3
                } else {
                    at_usr + 2
                };
                (Some(Details { source_file, usr, src, src_loc }), end)
            },
        },
    }
}

/// What the scan has gathered so far.
pub struct Tally {
    /// How many reports were counted.
    pub total_count: nat,
    /// The runtime errors, in the order in which each was first recorded.
    pub records: Seq<Record>,
    /// The message and proc name of every report counted, in order.
    pub seen: Seq<(Seq<char>, Seq<char>)>,
    /// How many reports were counted but not recorded, for want of `usr` or
    /// `src`.
    pub dropped: nat,
}

/// The tally before the first line.
pub open spec fn empty_tally() -> Tally {
    Tally { total_count: 0, records: Seq::empty(), seen: Seq::empty(), dropped: 0 }
}

/// The index of the record with this message and proc name, or the number
/// of records where there is none.
pub open spec fn position_of(records: Seq<Record>, message: Seq<char>, name: Seq<char>) -> int
    decreases records.len(),
{
    if records.len() == 0 || (records.first().message == message && records.first().proc_name
        == name) {
        0
    } else {
        1 + position_of(records.drop_first(), message, name)
    }
}

/// `record` counted once more.
pub open spec fn bumped(record: Record) -> Record {
    Record { count: record.count + 1, ..record }
}

/// The tally after one more report, with this message and proc name and with
/// the following lines at `pos` on, and the position at which the scan goes
/// on. A report of a known runtime error adds to its count and takes no
/// line. A report of a new one takes its details: with them it is recorded
/// with count 1, without them it is counted and dropped.
pub open spec fn count_report(
    lines: Seq<Seq<char>>,
    pos: int,
    tally: Tally,
    message: Seq<char>,
    name: Seq<char>,
) -> (Tally, int) {
    let at = position_of(tally.records, message, name);
    let total_count = tally.total_count + 1;
    let seen = tally.seen.push((message, name));
    if 0 <= at < tally.records.len() {
        (
            Tally {
                total_count,
                records: tally.records.update(at, bumped(tally.records[at])),
                seen,
                dropped: tally.dropped,
            },
            pos,
        )
    } else {
        match read_details(lines, pos) {
            (None, next) => (
                Tally { total_count, records: tally.records, seen, dropped: tally.dropped + 1 },
                next,
            ),
            (Some(details), next) => (
                Tally {
                    total_count,
                    records: tally.records.push(
                        Record {
                            message,
                            proc_name: name,
                            source_file: details.source_file,
                            usr: details.usr,
                            src: details.src,
                            src_loc: details.src_loc,
                            count: 1,
                        },
                    ),
                    seen,
                    dropped: tally.dropped,
                },
                next,
            ),
        }
    }
}

/// The tally at the end of the lines, for a scan that stands at `pos` with
/// `tally` gathered and, where `pending` is `Some`, with a message announced
/// whose proc name is still looked for. A message without a proc name before
/// the end of the lines is not counted.
pub open spec fn scan(
    lines: Seq<Seq<char>>,
    pos: int,
    pending: Option<Seq<char>>,
    tally: Tally,
) -> Tally
    decreases lines.len() - pos,
{
    if pos < 0 || pos >= lines.len() {
        tally
    } else {
        match pending {
            None => scan(lines, pos + 1, announcement(lines[pos]), tally),
            Some(message) => match proc_name(lines[pos]) {
                None => scan(lines, pos + 1, pending, tally),
                Some(name) => {
                    let (counted, next) = count_report(lines, pos + 1, tally, message, name);
                    scan(lines, next, None, counted)
                },
            },
        }
    }
}

/// `record` put into `sorted` before the first record that was not counted
/// more often.
pub open spec fn insert_by_count(sorted: Seq<Record>, record: Record) -> Seq<Record>
    decreases sorted.len(),
{
    if sorted.len() > 0 && sorted.first().count > record.count {
        seq![sorted.first()] + insert_by_count(sorted.drop_first(), record)
    } else {
        seq![record] + sorted
    }
}

/// `records` with the most frequent first; records of equal count keep their
/// order.
pub open spec fn by_count(records: Seq<Record>) -> Seq<Record>
    decreases records.len(),
{
    if records.len() == 0 {
        Seq::empty()
    } else {
        insert_by_count(by_count(records.drop_first()), records.first())
    }
}

/// The summary of `lines`.
pub open spec fn condensed(lines: Seq<Seq<char>>) -> Report {
    let tally = scan(lines, 0, None, empty_tally());
    Report { total_count: tally.total_count, runtimes: by_count(tally.records) }
}

/// The compiled patterns that reading the runtime log needs.
pub struct RuntimePatterns {
    announcement: Matcher,
    proc_name: Matcher,
    field: Matcher,
}

impl RuntimePatterns {
    #[verifier::type_invariant]
    spec fn inv(&self) -> bool {
        &&& self.announcement.pattern() == ANNOUNCEMENT_PATTERN@
        &&& self.proc_name.pattern() == PROC_NAME_PATTERN@
        &&& self.field.pattern() == FIELD_PATTERN@
    }

    /// Compiles the patterns.
    pub fn new() -> (p: RuntimePatterns)
        ensures
            p.announcement_pattern() == ANNOUNCEMENT_PATTERN@,
            p.proc_name_pattern() == PROC_NAME_PATTERN@,
            p.field_pattern() == FIELD_PATTERN@,
    {
        RuntimePatterns {
            announcement: Matcher::new(ANNOUNCEMENT_PATTERN),
            proc_name: Matcher::new(PROC_NAME_PATTERN),
            field: Matcher::new(FIELD_PATTERN),
        }
    }

    /// The pattern that tells the line that opens a report.
    pub closed spec fn announcement_pattern(&self) -> Seq<char> {
        self.announcement.pattern()
    }

    /// The pattern that tells the line that names the proc or verb.
    pub closed spec fn proc_name_pattern(&self) -> Seq<char> {
        self.proc_name.pattern()
    }

    /// The pattern that tells a line that gives one detail.
    pub closed spec fn field_pattern(&self) -> Seq<char> {
        self.field.pattern()
    }

    /// The message that `line` announces, if it opens a report.
    pub fn announcement(&self, line: &str) -> (r: Option<String>)
        ensures
            r.deep_view() == announcement(line@),
    {
        proof {
            use_type_invariant(self);
        }
        self.announcement.capture(line, 1)
    }

    /// The proc or verb that `line` names, if it names one.
    pub fn proc_name(&self, line: &str) -> (r: Option<String>)
        ensures
            r.deep_view() == proc_name(line@),
    {
        proof {
            use_type_invariant(self);
        }
        self.proc_name.capture(line, 1)
    }

    /// The value that the line at `pos` gives for the field `expecting`.
    pub fn read_field(&self, lines: &Vec<Vec<char>>, pos: usize, expecting: &str) -> (r: Option<
        String,
    >)
        ensures
            r.deep_view() == read_field(views(lines@), pos as int, expecting@),
            r is Some ==> pos < lines.len(),
    {
        proof {
            use_type_invariant(self);
        }
        if pos >= lines.len() {
            return None;
        }
        let line = string_of(lines[pos].as_slice());
        assert(line@ == views(lines@)[pos as int]);
        let (found, value) = self.field.capture_pair(line.as_str(), 1, 2);
        match (found, value) {
            (Some(found), Some(value)) => {
                if str_equals(found.as_str(), expecting) {
                    Some(value)
                } else {
                    None
                }
            },
            _ => None,
        }
    }

    /// The details read from the lines at `pos` on, with count 1, and the
    /// position after the lines that were taken.
    pub fn read_details(&self, lines: &Vec<Vec<char>>, pos: usize) -> (r: (
        Option<CondensedRuntimeValue>,
        usize,
    ))
        ensures
            r.1 == read_details(views(lines@), pos as int).1,
            pos <= r.1,
            pos <= lines.len() ==> r.1 <= lines.len(),
            r.0 is Some <==> read_details(views(lines@), pos as int).0 is Some,
            r.0 matches Some(value) ==> {
                let details = read_details(views(lines@), pos as int).0->0;
                &&& value.source_file.deep_view() == details.source_file
                &&& value.usr@ == details.usr
                &&& value.src@ == details.src
                &&& value.src_loc.deep_view() == details.src_loc
                &&& value.count == 1
            },
    {
        let source_file = self.read_field(lines, pos, "source file");
        let at_usr = if source_file.is_some() {
            pos + 1
        } else {
            pos
        };
        match self.read_field(lines, at_usr, "usr") {
            None => (None, at_usr),
            Some(usr) => match self.read_field(lines, at_usr + 1, "src") {
                None => (None, at_usr + 1),
                Some(src) => {
                    let src_loc = self.read_field(lines, at_usr + 2, "src.loc");
                    let end = if src_loc.is_some() {
                        at_usr + 3
                    } else {
                        at_usr + 2
                    };
                    (Some(CondensedRuntimeValue { source_file, usr, src, src_loc, count: 1 }), end)
                },
            },
        }
    }
}

/// The index of the runtime error with this message and proc name, or the
/// number of runtime errors where there is none.
fn position(runtimes: &Vec<CondensedRuntime>, message: &String, name: &String) -> (i: usize)
    ensures
        i == position_of(records_of(runtimes@), message@, name@),
        i <= runtimes.len(),
{
    let mut i: usize = 0;
    assert(records_of(runtimes@).skip(0) =~= records_of(runtimes@));
    while i < runtimes.len() && !(runtimes[i].key.message == *message && runtimes[i].key.proc_name
        == *name)
        invariant
            i <= runtimes.len(),
            position_of(records_of(runtimes@), message@, name@) == i + position_of(
                records_of(runtimes@).skip(i as int),
                message@,
                name@,
            ),
        decreases runtimes.len() - i,
    {
        proof {
            let rest = records_of(runtimes@).skip(i as int);
            assert(rest.first() == runtimes@[i as int]@);
            assert(rest.drop_first() =~= records_of(runtimes@).skip(i + 1));
        }
        i += 1;
    }
    proof {
        let rest = records_of(runtimes@).skip(i as int);
        if i < runtimes.len() {
            assert(rest.first() == runtimes@[i as int]@);
        }
    }
    i
}


/// Where `insert_by_count` puts a record: after the records counted more
/// often, before the first that was not.
pub proof fn lemma_insert_by_count(sorted: Seq<Record>, record: Record, at: int)
    requires
        0 <= at <= sorted.len(),
        forall|j: int| 0 <= j < at ==> sorted[j].count > record.count,
        at < sorted.len() ==> sorted[at].count <= record.count,
    ensures
        insert_by_count(sorted, record) == sorted.insert(at, record),
    decreases sorted.len(),
{
    if at > 0 {
        lemma_insert_by_count(sorted.drop_first(), record, at - 1);
        assert(seq![sorted.first()] + sorted.drop_first().insert(at - 1, record) =~= sorted.insert(
            at,
            record,
        ));
    } else {
        assert(seq![record] + sorted =~= sorted.insert(0, record));
    }
}

/// The runtime errors with the most frequent first.
fn sort_by_count(runtimes: Vec<CondensedRuntime>) -> (sorted: Vec<CondensedRuntime>)
    ensures
        records_of(sorted@) == by_count(records_of(runtimes@)),
{
    let ghost all = records_of(runtimes@);
    let mut rest = runtimes;
    let mut sorted: Vec<CondensedRuntime> = Vec::new();
    assert(all.take(rest.len() as int) =~= all);
    assert(records_of(sorted@) =~= by_count(all.skip(all.len() as int)));
    while rest.len() > 0
        invariant
            rest.len() <= all.len(),
            records_of(rest@) == all.take(rest.len() as int),
            records_of(sorted@) == by_count(all.skip(rest.len() as int)),
        decreases rest.len(),
    {
        let ghost before = rest@;
        let record = rest.pop().unwrap();
        let mut at: usize = 0;
        while at < sorted.len() && sorted[at].value.count > record.value.count
            invariant
                at <= sorted.len(),
                forall|j: int| 0 <= j < at ==> records_of(sorted@)[j].count > record@.count,
            decreases sorted.len() - at,
        {
            at += 1;
        }
        proof {
            let k = rest.len() as int;
            assert(record@ == records_of(before)[k]);
            assert(all.skip(k).first() == record@);
            assert(all.skip(k).drop_first() =~= all.skip(k + 1));
            lemma_insert_by_count(records_of(sorted@), record@, at as int);
            assert(records_of(rest@) =~= all.take(k));
        }
        let ghost previous = records_of(sorted@);
        sorted.insert(at, record);
        assert(records_of(sorted@) =~= previous.insert(at as int, record@));
    }
    assert(all.skip(0) =~= all);
    sorted
}

/// The summary of the runtime log `runtime_contents`.
pub fn get_condensed_runtimes(runtime_contents: &str) -> (r: CondensedRuntimes)
    ensures
        r@ == condensed(lines_of(runtime_contents@)),
        sorted_by_count(r@.runtimes),
{
    let chars = chars_of(runtime_contents);
    let all = lines(chars.as_slice());
    let patterns = RuntimePatterns::new();
    let mut runtimes: Vec<CondensedRuntime> = Vec::new();
    let mut total_count: u64 = 0;
    let mut pending: Option<String> = None;
    let mut pos: usize = 0;
    let ghost mut seen: Seq<(Seq<char>, Seq<char>)> = Seq::empty();
    let ghost mut dropped: nat = 0;
    assert(records_of(runtimes@) =~= Seq::empty());
    while pos < all.len()
        invariant
            pos <= all.len(),
            total_count <= pos,
            forall|i: int| 0 <= i < runtimes.len() ==> runtimes@[i].value.count <= total_count,
            scan(
                views(all@),
                pos as int,
                pending.deep_view(),
                Tally {
                    total_count: total_count as nat,
                    records: records_of(runtimes@),
                    seen,
                    dropped,
                },
            ) == scan(views(all@), 0, None, empty_tally()),
        decreases all.len() - pos,
    {
        let line = string_of(all[pos].as_slice());
        assert(line@ == views(all@)[pos as int]);
        match pending {
            None => {
                pending = patterns.announcement(line.as_str());
                pos += 1;
            },
            Some(message) => match patterns.proc_name(line.as_str()) {
                None => {
                    pending = Some(message);
                    pos += 1;
                },
                Some(name) => {
                    let ghost records = records_of(runtimes@);
                    pos += 1;
                    total_count += 1;
                    let at = position(&runtimes, &message, &name);
                    if at < runtimes.len() {
                        let mut known = runtimes.remove(at);
                        known.value.count = known.value.count + 1;
                        assert(known@ == bumped(records[at as int]));
                        runtimes.insert(at, known);
                        assert(records_of(runtimes@) =~= records.update(
                            at as int,
                            bumped(records[at as int]),
                        ));
                    } else {
                        let (details, next) = patterns.read_details(&all, pos);
                        pos = next;
                        match details {
                            Some(value) => {
                                let record = CondensedRuntime {
                                    key: CondensedRuntimeKey { message, proc_name: name },
                                    value,
                                };
                                runtimes.push(record);
                                assert(records_of(runtimes@) =~= records.push(record@));
                            },
                            None => {
                                proof {
                                    dropped = dropped + 1;
                                }
                            },
                        }
                    }
                    proof {
                        seen = seen.push((message@, name@));
                    }
                    pending = None;
                },
            },
        }
    }
    let sorted = sort_by_count(runtimes);
    proof {
        lemma_condensed(views(all@));
    }
    CondensedRuntimes { total_count, runtimes: sorted }
}

/// The summary of the runtime log `contents`, addresses replaced first.
pub fn condense_runtimes(contents: &str) -> (r: CondensedRuntimes)
    ensures
        r@ == condensed(lines_of(redacted(contents@))),
        sorted_by_count(r@.runtimes),
{
    let filtered = filter_ips(contents);
    get_condensed_runtimes(cow_str(&filtered))
}


/// The first line of the summary.
pub const NOTE: &'static str =
    "Note: The source file, src and usr are all from the FIRST of the identical runtimes. Everything else is cropped.";

/// One line for a detail that is there, none for one that is not.
pub open spec fn optional_line(label: Seq<char>, value: Option<Seq<char>>) -> Seq<Seq<char>> {
    match value {
        Some(value) => seq![label + value],
        None => Seq::empty(),
    }
}

/// The lines of the summary for one runtime error, an empty line before
/// them and one after.
pub open spec fn record_lines(record: Record) -> Seq<Seq<char>> {
    seq![
        Seq::<char>::empty(),
        "The following runtime has occurred "@ + decimal(record.count) + " time(s)."@,
        "runtime error: "@ + record.message,
        "proc name: "@ + record.proc_name,
    ] + optional_line("  source file: "@, record.source_file) + seq![
        "  usr: "@ + record.usr,
        "  src: "@ + record.src,
    ] + optional_line("  src.loc: "@, record.src_loc) + seq![Seq::<char>::empty()]
}

/// The lines of the summary for `records`, in their order.
pub open spec fn all_record_lines(records: Seq<Record>) -> Seq<Seq<char>>
    decreases records.len(),
{
    if records.len() == 0 {
        Seq::empty()
    } else {
        all_record_lines(records.drop_last()) + record_lines(records.last())
    }
}

/// The lines of the summary.
pub open spec fn report_lines(report: Report) -> Seq<Seq<char>> {
    seq![
        NOTE@,
        Seq::<char>::empty(),
        "Total unique runtimes: "@ + decimal(report.runtimes.len()),
        "Total runtimes: "@ + decimal(report.total_count),
        Seq::<char>::empty(),
        "** Runtimes **"@,
    ] + all_record_lines(report.runtimes) + seq![Seq::<char>::empty(), Seq::<char>::empty()]
}

/// The summary as text, a line feed between each two lines.
pub open spec fn rendered(report: Report) -> Seq<char> {
    join_with(report_lines(report), "\n"@)
}

fn push_line(lines: &mut Vec<Vec<char>>, line: Vec<char>)
    ensures
        views(final(lines)@) == views(old(lines)@).push(line@),
{
    lines.push(line);
    assert(views(lines@) =~= views(old(lines)@).push(line@));
}

fn labelled(label: &str, value: &str) -> (line: Vec<char>)
    ensures
        line@ == label@ + value@,
{
    let mut line: Vec<char> = Vec::new();
    push_str(&mut line, label);
    push_str(&mut line, value);
    assert(line@ =~= label@ + value@);
    line
}

fn numbered(label: &str, n: u64, end: &str) -> (line: Vec<char>)
    ensures
        line@ == label@ + decimal(n as nat) + end@,
{
    let mut line: Vec<char> = Vec::new();
    push_str(&mut line, label);
    push_decimal(&mut line, n);
    push_str(&mut line, end);
    assert(line@ =~= label@ + decimal(n as nat) + end@);
    line
}

fn push_optional_line(lines: &mut Vec<Vec<char>>, label: &str, value: &Option<String>)
    ensures
        views(final(lines)@) == views(old(lines)@) + optional_line(label@, value.deep_view()),
{
    match value {
        Some(value) => {
            push_line(lines, labelled(label, value.as_str()));
            assert(views(lines@) =~= views(old(lines)@) + seq![label@ + value@]);
        },
        None => {
            assert(views(lines@) =~= views(old(lines)@) + Seq::<Seq<char>>::empty());
        },
    }
}

fn push_record_lines(lines: &mut Vec<Vec<char>>, runtime: &CondensedRuntime)
    ensures
        views(final(lines)@) == views(old(lines)@) + record_lines(runtime@),
{
    let ghost start = views(lines@);
    push_line(lines, Vec::new());
    push_line(
        lines,
        numbered("The following runtime has occurred ", runtime.value.count, " time(s)."),
    );
    push_line(lines, labelled("runtime error: ", runtime.key.message.as_str()));
    push_line(lines, labelled("proc name: ", runtime.key.proc_name.as_str()));
    push_optional_line(lines, "  source file: ", &runtime.value.source_file);
    push_line(lines, labelled("  usr: ", runtime.value.usr.as_str()));
    push_line(lines, labelled("  src: ", runtime.value.src.as_str()));
    push_optional_line(lines, "  src.loc: ", &runtime.value.src_loc);
    push_line(lines, Vec::new());
    assert(views(lines@) =~= start + record_lines(runtime@));
}

/// The summary as text.
pub fn render(report: &CondensedRuntimes) -> (r: String)
    ensures
        r@ == rendered(report@),
{
    let mut lines: Vec<Vec<char>> = Vec::new();
    assert(views(lines@) =~= Seq::<Seq<char>>::empty());
    push_line(&mut lines, chars_of(NOTE));
    push_line(&mut lines, Vec::new());
    push_line(&mut lines, numbered("Total unique runtimes: ", report.runtimes.len() as u64, ""));
    push_line(&mut lines, numbered("Total runtimes: ", report.total_count, ""));
    push_line(&mut lines, Vec::new());
    push_line(&mut lines, chars_of("** Runtimes **"));
    let ghost header = views(lines@);
    proof {
        reveal_strlit("");
        assert("Total unique runtimes: "@ + decimal(report.runtimes.len() as nat) + ""@
            =~= "Total unique runtimes: "@ + decimal(report.runtimes.len() as nat));
        assert("Total runtimes: "@ + decimal(report.total_count as nat) + ""@
            =~= "Total runtimes: "@ + decimal(report.total_count as nat));
        assert(header =~= seq![
            NOTE@,
            Seq::<char>::empty(),
            "Total unique runtimes: "@ + decimal(report@.runtimes.len()),
            "Total runtimes: "@ + decimal(report@.total_count),
            Seq::<char>::empty(),
            "** Runtimes **"@,
        ]);
    }
    let mut i: usize = 0;
    assert(views(lines@) =~= header + all_record_lines(report@.runtimes.take(0)));
    while i < report.runtimes.len()
        invariant
            i <= report.runtimes.len(),
            views(lines@) == header + all_record_lines(report@.runtimes.take(i as int)),
        decreases report.runtimes.len() - i,
    {
        push_record_lines(&mut lines, &report.runtimes[i]);
        proof {
            let done = report@.runtimes.take(i + 1);
            assert(done.drop_last() =~= report@.runtimes.take(i as int));
            assert(done.last() == report.runtimes@[i as int]@);
            assert(views(lines@) =~= header + all_record_lines(done));
        }
        i += 1;
    }
    assert(report@.runtimes.take(i as int) =~= report@.runtimes);
    let ghost body = views(lines@);
    push_line(&mut lines, Vec::new());
    push_line(&mut lines, Vec::new());
    assert(views(lines@) =~= report_lines(report@));
    let text = join(&lines, "\n");
    string_of(text.as_slice())
}

/// The summary of the runtime log `contents` as text, addresses replaced
/// first.
pub fn condense_runtimes_to_string(contents: &str) -> (r: String)
    ensures
        r@ == rendered(condensed(lines_of(redacted(contents@)))),
{
    let report = condense_runtimes(contents);
    render(&report)
}

/// A line that quotes what could not be read.
pub const STRING_OUTPUT_PATTERN: &'static str = r#"^.*Cannot read ".*$"#;

/// What stands in place of such a line.
pub const STRING_OUTPUT_CENSORED: &'static str = "-censored (string output)";

/// `line` as the runtime log is published: a line that quotes what could
/// not be read is replaced. Should the pattern not compile, no line is let
/// through.
pub open spec fn sanitized(line: Seq<char>) -> Seq<char> {
    match replaced(STRING_OUTPUT_PATTERN@, line, 1, STRING_OUTPUT_CENSORED@) {
        Some(r) => r,
        None => STRING_OUTPUT_CENSORED@,
    }
}

/// The lines of the published runtime log.
pub open spec fn sanitized_lines(lines: Seq<Seq<char>>) -> Seq<Seq<char>> {
    lines.map_values(|line: Seq<char>| sanitized(line))
}

fn sanitize_with<'a>(pattern: &Matcher, line: &'a str) -> (r: Cow<'a, str>)
    requires
        pattern.pattern() == STRING_OUTPUT_PATTERN@,
    ensures
        r@ == sanitized(line@),
{
    match pattern.replacen(line, 1, STRING_OUTPUT_CENSORED) {
        Some(r) => r,
        None => Cow::Borrowed(STRING_OUTPUT_CENSORED),
    }
}

/// One line of the runtime log as it is published.
pub fn sanitize_runtimes_line<'a>(line: &'a str) -> (r: Cow<'a, str>)
    ensures
        r@ == sanitized(line@),
{
    let pattern = Matcher::new(STRING_OUTPUT_PATTERN);
    sanitize_with(&pattern, line)
}

/// The published runtime log: every line sanitized, a line feed between
/// each two.
pub fn process_runtimes_log(contents: String) -> (r: String)
    ensures
        r@ == join_with(sanitized_lines(lines_of(contents@)), "\n"@),
{
    let chars = chars_of(contents.as_str());
    let all = lines(chars.as_slice());
    let pattern = Matcher::new(STRING_OUTPUT_PATTERN);
    let mut out: Vec<Vec<char>> = Vec::new();
    let mut i: usize = 0;
    assert(views(out@) =~= sanitized_lines(views(all@)).take(0));
    while i < all.len()
        invariant
            i <= all.len(),
            pattern.pattern() == STRING_OUTPUT_PATTERN@,
            views(out@) == sanitized_lines(views(all@)).take(i as int),
        decreases all.len() - i,
    {
        let line = string_of(all[i].as_slice());
        let clean = sanitize_with(&pattern, line.as_str());
        push_line(&mut out, cow_chars(&clean));
        i += 1;
        assert(views(out@) =~= sanitized_lines(views(all@)).take(i as int));
    }
    assert(sanitized_lines(views(all@)).take(i as int) =~= sanitized_lines(views(all@)));
    let text = join(&out, "\n");
    string_of(text.as_slice())
}


/// How many reports `records` stand for: the sum of their counts.
pub open spec fn counted(records: Seq<Record>) -> nat
    decreases records.len(),
{
    if records.len() == 0 {
        0
    } else {
        counted(records.drop_last()) + records.last().count
    }
}

/// Counting one record once more adds one to the sum.
pub proof fn lemma_counted_bumped(records: Seq<Record>, at: int)
    requires
        0 <= at < records.len(),
    ensures
        counted(records.update(at, bumped(records[at]))) == counted(records) + 1,
    decreases records.len(),
{
    let after = records.update(at, bumped(records[at]));
    if at == records.len() - 1 {
        assert(after.drop_last() =~= records.drop_last());
    } else {
        lemma_counted_bumped(records.drop_last(), at);
        assert(after.drop_last() =~= records.drop_last().update(at, bumped(records[at])));
    }
}

/// A record put in anywhere adds its count to the sum.
pub proof fn lemma_counted_insert(records: Seq<Record>, at: int, record: Record)
    requires
        0 <= at <= records.len(),
    ensures
        counted(records.insert(at, record)) == counted(records) + record.count,
    decreases records.len(),
{
    let after = records.insert(at, record);
    if at == records.len() {
        assert(after.drop_last() =~= records);
    } else {
        lemma_counted_insert(records.drop_last(), at, record);
        assert(after.drop_last() =~= records.drop_last().insert(at, record));
    }
}

/// The message and proc name of every record, in order.
pub open spec fn keys_of(records: Seq<Record>) -> Seq<(Seq<char>, Seq<char>)> {
    records.map_values(|r: Record| (r.message, r.proc_name))
}

/// No record is counted less often than one that follows it.
pub open spec fn sorted_by_count(records: Seq<Record>) -> bool {
    forall|i: int, j: int| 0 <= i <= j < records.len() ==> records[i].count >= records[j].count
}

/// What holds of the tally throughout a scan: every report counted was
/// seen, and was either added to a record's count or dropped; no two
/// records have the same message and proc name; every record is of a report
/// that was seen and was counted at least once; and unless a report was
/// dropped, every report seen has its record.
pub open spec fn tally_consistent(tally: Tally) -> bool {
    &&& tally.total_count == tally.seen.len()
    &&& tally.total_count == counted(tally.records) + tally.dropped
    &&& keys_of(tally.records).no_duplicates()
    &&& forall|k: (Seq<char>, Seq<char>)|
        keys_of(tally.records).contains(k) ==> tally.seen.contains(k)
    &&& tally.dropped == 0 ==> forall|k: (Seq<char>, Seq<char>)|
        tally.seen.contains(k) ==> keys_of(tally.records).contains(k)
    &&& forall|i: int|
        0 <= i < tally.records.len() ==> 1 <= (#[trigger] tally.records[i]).count
            <= tally.total_count
}

/// No record before `position_of` has this message and proc name, and the
/// record at it has them, unless it is the number of records.
pub proof fn lemma_position_of(records: Seq<Record>, message: Seq<char>, name: Seq<char>)
    ensures
        0 <= position_of(records, message, name) <= records.len(),
        forall|j: int|
            0 <= j < position_of(records, message, name) ==> keys_of(records)[j] != (message, name),
        position_of(records, message, name) < records.len() ==> keys_of(records)[position_of(
            records,
            message,
            name,
        )] == (message, name),
    decreases records.len(),
{
    if records.len() == 0 || (records.first().message == message && records.first().proc_name
        == name) {
    } else {
        let rest = records.drop_first();
        lemma_position_of(rest, message, name);
        let at = position_of(records, message, name);
        assert forall|j: int| 0 <= j < at implies keys_of(records)[j] != (message, name) by {
            if j > 0 {
                assert(keys_of(records)[j] == keys_of(rest)[j - 1]);
            }
        }
        if at < records.len() {
            assert(keys_of(records)[at] == keys_of(rest)[at - 1]);
        }
    }
}

proof fn lemma_push_contains<A>(s: Seq<A>, x: A, k: A)
    ensures
        s.push(x).contains(k) <==> (s.contains(k) || k == x),
{
    if s.push(x).contains(k) {
        let i = choose|i: int| 0 <= i < s.push(x).len() && s.push(x)[i] == k;
        if i < s.len() {
            assert(s[i] == k);
        }
    }
    if s.contains(k) {
        let i = choose|i: int| 0 <= i < s.len() && s[i] == k;
        assert(s.push(x)[i] == k);
    }
    if k == x {
        assert(s.push(x)[s.len() as int] == k);
    }
}

/// Counting one more report keeps the tally consistent, and the scan does
/// not go back.
pub proof fn lemma_count_report(
    lines: Seq<Seq<char>>,
    pos: int,
    tally: Tally,
    message: Seq<char>,
    name: Seq<char>,
)
    requires
        tally_consistent(tally),
    ensures
        tally_consistent(count_report(lines, pos, tally, message, name).0),
        count_report(lines, pos, tally, message, name).1 >= pos,
        count_report(lines, pos, tally, message, name).0.total_count == tally.total_count + 1,
{
    let key = (message, name);
    let at = position_of(tally.records, message, name);
    let (after, next) = count_report(lines, pos, tally, message, name);
    let keys = keys_of(tally.records);
    lemma_position_of(tally.records, message, name);
    assert forall|k: (Seq<char>, Seq<char>)| after.seen.contains(k) <==> (tally.seen.contains(k)
        || k == key) by {
        lemma_push_contains(tally.seen, key, k);
    }
    if 0 <= at < tally.records.len() {
        lemma_counted_bumped(tally.records, at);
        assert(keys_of(after.records) =~= keys);
        assert(keys.contains(key)) by {
            assert(keys[at] == key);
        }
        assert forall|i: int| 0 <= i < after.records.len() implies 1 <= (
        #[trigger] after.records[i]).count <= after.total_count by {
            if i != at {
                assert(after.records[i] == tally.records[i]);
            }
        }
    } else {
        assert(!keys.contains(key)) by {
            if keys.contains(key) {
                let j = choose|j: int| 0 <= j < keys.len() && keys[j] == key;
                assert(keys[j] != key);
            }
        }
        if read_details(lines, pos).0 is Some {
            let record = after.records.last();
            assert(after.records.drop_last() =~= tally.records);
            assert(keys_of(after.records) =~= keys.push(key));
            assert forall|k: (Seq<char>, Seq<char>)|
                keys_of(after.records).contains(k) <==> (keys.contains(k) || k == key) by {
                lemma_push_contains(keys, key, k);
            }
            assert(keys.push(key).no_duplicates()) by {
                assert forall|i: int, j: int|
                    0 <= i < keys.push(key).len() && 0 <= j < keys.push(key).len() && i
                        != j implies keys.push(key)[i] != keys.push(key)[j] by {
                    if i < keys.len() && j < keys.len() {
                        assert(keys[i] != keys[j]);
                    } else if i < keys.len() {
                        assert(keys.contains(keys[i]));
                    } else {
                        assert(keys.contains(keys[j]));
                    }
                }
            }
            assert forall|i: int| 0 <= i < after.records.len() implies 1 <= (
            #[trigger] after.records[i]).count <= after.total_count by {
                if i < tally.records.len() {
                    assert(after.records[i] == tally.records[i]);
                }
            }
        } else {
            assert forall|i: int| 0 <= i < after.records.len() implies 1 <= (
            #[trigger] after.records[i]).count <= after.total_count by {
                assert(after.records[i] == tally.records[i]);
            }
        }
    }
}

/// A scan keeps the tally consistent.
pub proof fn lemma_scan_consistent(
    lines: Seq<Seq<char>>,
    pos: int,
    pending: Option<Seq<char>>,
    tally: Tally,
)
    requires
        tally_consistent(tally),
    ensures
        tally_consistent(scan(lines, pos, pending, tally)),
    decreases lines.len() - pos,
{
    if pos < 0 || pos >= lines.len() {
    } else {
        match pending {
            None => lemma_scan_consistent(lines, pos + 1, announcement(lines[pos]), tally),
            Some(message) => match proc_name(lines[pos]) {
                None => lemma_scan_consistent(lines, pos + 1, pending, tally),
                Some(name) => {
                    lemma_count_report(lines, pos + 1, tally, message, name);
                    let (counted, next) = count_report(lines, pos + 1, tally, message, name);
                    lemma_scan_consistent(lines, next, None, counted);
                },
            },
        }
    }
}

/// How many records at the start of `sorted` were counted more often than
/// `record`.
pub open spec fn insert_position(sorted: Seq<Record>, record: Record) -> int
    decreases sorted.len(),
{
    if sorted.len() > 0 && sorted.first().count > record.count {
        1 + insert_position(sorted.drop_first(), record)
    } else {
        0
    }
}

/// Every record before `insert_position` was counted more often than
/// `record`, and the record at it was not.
pub proof fn lemma_insert_position(sorted: Seq<Record>, record: Record)
    ensures
        0 <= insert_position(sorted, record) <= sorted.len(),
        forall|j: int| 0 <= j < insert_position(sorted, record) ==> sorted[j].count > record.count,
        insert_position(sorted, record) < sorted.len() ==> sorted[insert_position(
            sorted,
            record,
        )].count <= record.count,
    decreases sorted.len(),
{
    if sorted.len() > 0 && sorted.first().count > record.count {
        let rest = sorted.drop_first();
        lemma_insert_position(rest, record);
        let at = insert_position(sorted, record);
        assert forall|j: int| 0 <= j < at implies sorted[j].count > record.count by {
            if j > 0 {
                assert(sorted[j] == rest[j - 1]);
            }
        }
        if at < sorted.len() {
            assert(sorted[at] == rest[at - 1]);
        }
    }
}

/// Putting a record into a sorted sequence leaves it sorted and adds that
/// record and no other.
pub proof fn lemma_insert_keeps_sorted(sorted: Seq<Record>, record: Record)
    requires
        sorted_by_count(sorted),
    ensures
        sorted_by_count(insert_by_count(sorted, record)),
        insert_by_count(sorted, record).to_multiset() == sorted.to_multiset().insert(record),
        insert_by_count(sorted, record).len() == sorted.len() + 1,
        counted(insert_by_count(sorted, record)) == counted(sorted) + record.count,
{
    let at = insert_position(sorted, record);
    lemma_insert_position(sorted, record);
    lemma_counted_insert(sorted, at, record);
    lemma_insert_by_count(sorted, record, at);
    vstd::seq_lib::to_multiset_insert(sorted, at, record);
    let out = sorted.insert(at, record);
    assert forall|i: int, j: int| 0 <= i <= j < out.len() implies out[i].count
        >= out[j].count by {
        if i < at && j > at {
            assert(out[i] == sorted[i] && out[j] == sorted[j - 1]);
        } else if i > at {
            assert(out[i] == sorted[i - 1] && out[j] == sorted[j - 1]);
        } else if j < at {
            assert(out[i] == sorted[i] && out[j] == sorted[j]);
        } else if i == at && j > at {
            assert(out[j] == sorted[j - 1]);
            assert(sorted[at].count >= sorted[j - 1].count);
        } else if i < at && j == at {
            assert(out[i] == sorted[i]);
        }
    }
}

/// `by_count` gives the same records, each as often as it stood there, with
/// no record counted less often than one that follows it.
pub proof fn lemma_by_count(records: Seq<Record>)
    ensures
        sorted_by_count(by_count(records)),
        by_count(records).to_multiset() == records.to_multiset(),
        by_count(records).len() == records.len(),
        counted(by_count(records)) == counted(records),
    decreases records.len(),
{
    broadcast use vstd::multiset::group_multiset_axioms;

    if records.len() == 0 {
        assert(records =~= Seq::empty());
    } else {
        let rest = records.drop_first();
        lemma_by_count(rest);
        lemma_insert_keeps_sorted(by_count(rest), records.first());
        assert(records =~= rest.insert(0, records.first()));
        vstd::seq_lib::to_multiset_insert(rest, 0, records.first());
        lemma_counted_insert(rest, 0, records.first());
        assert(records.to_multiset() =~= rest.to_multiset().insert(records.first()));
    }
}

/// The summary counts every report that the scan pairs of a message and a
/// proc name: each is in the count of a runtime error or was dropped for
/// want of `usr` or `src`. It holds at most one runtime error for each
/// distinct pair among them, and exactly one unless a report was dropped.
/// It lists the runtime errors that the scan recorded, the most frequent
/// first.
pub proof fn lemma_condensed(lines: Seq<Seq<char>>)
    ensures
        ({
            let tally = scan(lines, 0, None, empty_tally());
            let report = condensed(lines);
            &&& report.total_count == tally.seen.len()
            &&& report.total_count == counted(report.runtimes) + tally.dropped
            &&& report.runtimes.len() <= tally.seen.to_set().len()
            &&& tally.dropped == 0 ==> report.runtimes.len() == tally.seen.to_set().len()
            &&& sorted_by_count(report.runtimes)
            &&& report.runtimes.to_multiset() == tally.records.to_multiset()
        }),
{
    let start = empty_tally();
    assert(keys_of(start.records) =~= Seq::empty());
    assert(tally_consistent(start));
    lemma_scan_consistent(lines, 0, None, start);
    let tally = scan(lines, 0, None, start);
    lemma_by_count(tally.records);
    let keys = keys_of(tally.records);
    keys.unique_seq_to_set();
    vstd::seq_lib::seq_to_set_is_finite(tally.seen);
    assert(keys.to_set().subset_of(tally.seen.to_set()));
    vstd::set_lib::lemma_len_subset(keys.to_set(), tally.seen.to_set());
    if tally.dropped == 0 {
        assert(keys.to_set() =~= tally.seen.to_set());
    }
}

/// From a position after which no line names a proc or verb, the scan
/// counts nothing and records nothing, whether or not a message is
/// announced there or later.
pub proof fn lemma_scan_without_proc_name(
    lines: Seq<Seq<char>>,
    pos: int,
    pending: Option<Seq<char>>,
    tally: Tally,
)
    requires
        forall|i: int| 0 <= i < lines.len() && pos <= i ==> proc_name(lines[i]) is None,
    ensures
        scan(lines, pos, pending, tally) == tally,
    decreases lines.len() - pos,
{
    if pos < 0 || pos >= lines.len() {
    } else {
        match pending {
            None => lemma_scan_without_proc_name(lines, pos + 1, announcement(lines[pos]), tally),
            Some(message) => lemma_scan_without_proc_name(lines, pos + 1, pending, tally),
        }
    }
}

} // verus!
