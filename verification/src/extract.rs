//! The front-matter extractor: from the lines of a journal file and the names
//! of the tracked metrics to the metrics that the file records.
//!
//! The front matter is what stands between the first line that holds three
//! hyphens in a row and the next such line (or the end of the file). A line of
//! it that begins with a tracked name is a metric line: the text before its
//! first colon, trimmed, is the metric's name, and the text after it, trimmed,
//! is its value, or 0 where that text is no `u32`. The date of every metric of
//! a file is the date that the name of the file writes.

use crate::date::{parse_from_str, parsed_day, Date, DB_DATE_FORMAT};
use crate::seqs::{first_index, lemma_first_index_is};
use crate::store::{Metric, MetricView, text_of, texts_of};
use crate::text::{
    chars_of, contains_rule, find_char, has_rule, index_of, parse_u32, parse_u32_range, starts_with,
    trim, trim_range,
};
use vstd::prelude::*;
use vstd::string::StrSliceExecFns;

verus! {

/// Why a file yields no metrics.
#[derive(Clone, Copy, Debug, PartialEq, Eq, Structural)]
pub enum ExtractError {
    /// The path names no file.
    NoFileName,
    /// The name of the file writes no date.
    BadDate,
    /// A metric line holds no colon.
    MalformedLine,
    /// The clock gives no moment to write the records with. A file never
    /// records this of itself: it is the error of an ingestion.
    NoClock,
}

/// The names of the metrics to look for.
pub struct NeededMetrics {
    pub metrics: Vec<String>,
}

impl NeededMetrics {
    /// The names `metrics`, each as a `String` of its own.
    pub fn new(metrics: Vec<&str>) -> (r: NeededMetrics)
        ensures
            r.metrics@.len() == metrics@.len(),
            forall|i: int| 0 <= i < metrics@.len() ==> (#[trigger] r.metrics@[i])@ == metrics@[i]@,
    {
        let mut names: Vec<String> = Vec::new();
        let mut i: usize = 0;
        while i < metrics.len()
            invariant
                i <= metrics.len(),
                names@.len() == i,
                forall|j: int| 0 <= j < i ==> (#[trigger] names@[j])@ == metrics@[j]@,
            decreases metrics.len() - i,
        {
            names.push(metrics[i].to_owned());
            i += 1;
        }
        NeededMetrics { metrics: names }
    }
}

/// The value that the text `s` writes: the `u32` it writes, or 0.
pub open spec fn value_of(s: Seq<char>) -> u32 {
    match parse_u32(s) {
        Some(v) => v,
        None => 0,
    }
}

/// The metric that `line` records for the date `date` and the file `path`;
/// `None` where `line` holds no colon.
pub open spec fn line_metric(line: Seq<char>, date: int, path: Seq<char>) -> Option<MetricView> {
    let i = index_of(line, ':');
    if i < line.len() {
        Some(
            MetricView {
                name: trim(line.subrange(0, i)),
                value: value_of(trim(line.subrange(i + 1, line.len() as int))),
                date,
                file_path: path,
            },
        )
    } else {
        None
    }
}

/// The date that the stem of a file name writes.
pub open spec fn stem_date(stem: Option<Seq<char>>) -> Result<int, ExtractError> {
    match stem {
        None => Err(ExtractError::NoFileName),
        Some(text) => match parsed_day(text, DB_DATE_FORMAT@) {
            None => Err(ExtractError::BadDate),
            Some(day) => Ok(day),
        },
    }
}

/// The metric that `line` records, given the date that the file's name
/// writes: the error of the date first, then that of the line.
pub open spec fn dated_line_metric(line: Seq<char>, date: Result<int, ExtractError>, path: Seq<char>) -> Result<
    MetricView,
    ExtractError,
> {
    match date {
        Err(e) => Err(e),
        Ok(day) => match line_metric(line, day, path) {
            None => Err(ExtractError::MalformedLine),
            Some(m) => Ok(m),
        },
    }
}

/// Whether `line` begins with one of the names `tracked`.
pub open spec fn is_metric_line(line: Seq<char>, wanted: Seq<Seq<char>>) -> bool {
    exists|k: int| 0 <= k < wanted.len() && (#[trigger] wanted[k]).is_prefix_of(line)
}

/// The index of the first line of `lines` that holds three hyphens in a row;
/// the length of `lines` where there is none.
pub open spec fn first_rule(lines: Seq<Seq<char>>) -> int {
    first_index(lines, |l: Seq<char>| has_rule(l))
}

/// The lines of the front matter of `lines`.
pub open spec fn front_matter(lines: Seq<Seq<char>>) -> Seq<Seq<char>> {
    let open = first_rule(lines);
    if open >= lines.len() {
        Seq::empty()
    } else {
        let rest = lines.skip(open + 1);
        rest.take(first_rule(rest))
    }
}

/// `records` with `m` in place of the record of the same name, at the end.
pub open spec fn put_metric(records: Seq<MetricView>, m: MetricView) -> Seq<MetricView> {
    let i = first_index(records, |r: MetricView| r.name == m.name);
    if i < records.len() {
        records.remove(i).push(m)
    } else {
        records.push(m)
    }
}

/// The metrics that the lines `block` record, the last metric line of a name
/// standing for that name; the first error where a metric line gives one.
pub open spec fn block_metrics(
    block: Seq<Seq<char>>,
    wanted: Seq<Seq<char>>,
    date: Result<int, ExtractError>,
    path: Seq<char>,
) -> Result<Seq<MetricView>, ExtractError>
    decreases block.len(),
{
    if block.len() == 0 {
        Ok(Seq::empty())
    } else {
        match block_metrics(block.drop_last(), wanted, date, path) {
            Err(e) => Err(e),
            Ok(records) => if is_metric_line(block.last(), wanted) {
                match dated_line_metric(block.last(), date, path) {
                    Err(e) => Err(e),
                    Ok(m) => Ok(put_metric(records, m)),
                }
            } else {
                Ok(records)
            },
        }
    }
}

/// The metrics that a file records: those of the lines of its front matter.
pub open spec fn file_metrics(
    lines: Seq<Seq<char>>,
    wanted: Seq<Seq<char>>,
    stem: Option<Seq<char>>,
    path: Seq<char>,
) -> Result<Seq<MetricView>, ExtractError> {
    block_metrics(front_matter(lines), wanted, stem_date(stem), path)
}

/// The views of the metrics `v`.
pub open spec fn metrics_of(v: Seq<Metric>) -> Seq<MetricView> {
    Seq::new(v.len(), |i: int| v[i]@)
}

/// What an extraction of one metric gave.
pub open spec fn metric_result(r: Result<Metric, ExtractError>) -> Result<MetricView, ExtractError> {
    match r {
        Ok(m) => Ok(m@),
        Err(e) => Err(e),
    }
}

/// What an extraction of a file gave.
pub open spec fn metrics_result(r: Result<Vec<Metric>, ExtractError>) -> Result<Seq<MetricView>, ExtractError> {
    match r {
        Ok(v) => Ok(metrics_of(v@)),
        Err(e) => Err(e),
    }
}

/// The stem of the file that `path` names: `std::path::Path::file_stem`, as
/// text. Nothing is promised of it: where a path's components part depends on
/// the platform.
#[verifier::external_body]
pub(crate) fn file_stem(path: &str) -> Option<String> {
    std::path::Path::new(path).file_stem().and_then(|s| s.to_str()).map(|s| s.to_owned())
}

/// The date that the stem of a file name writes.
pub fn date_of_stem(stem: &Option<String>) -> (r: Result<Date, ExtractError>)
    ensures
        match r {
            Ok(d) => stem_date(text_of(*stem)) == Ok::<int, ExtractError>(d@),
            Err(e) => stem_date(text_of(*stem)) == Err::<int, ExtractError>(e),
        },
{
    match stem {
        None => Err(ExtractError::NoFileName),
        Some(text) => match parse_from_str(text.as_str(), DB_DATE_FORMAT) {
            Ok(d) => Ok(d),
            Err(_) => Err(ExtractError::BadDate),
        },
    }
}

/// The metric that `line` records for the date `date` and the file `path`.
pub fn metric_of_line(line: &str, date: Date, path: &str) -> (r: Option<Metric>)
    ensures
        match r {
            Some(m) => line_metric(line@, date@, path@) == Some(m@),
            None => line_metric(line@, date@, path@) is None,
        },
{
    let cs = chars_of(line);
    let i = find_char(&cs, ':');
    if i >= cs.len() {
        return None;
    }
    let (a, b) = trim_range(&cs, 0, i);
    let (c, d) = trim_range(&cs, i + 1, cs.len());
    let value: u32 = match parse_u32_range(&cs, c, d) {
        Some(v) => v,
        None => 0,
    };
    let name = line.substring_char(a, b).to_owned();
    Some(Metric { name, value, date, file_path: path.to_owned() })
}

/// The metric that `line` records for the file `path`, whose name has the
/// stem `stem`: the error of the date first, then that of the line.
pub fn metric_from_line(line: &str, stem: &Option<String>, path: &str) -> (r: Result<Metric, ExtractError>)
    ensures
        metric_result(r) == dated_line_metric(line@, stem_date(text_of(*stem)), path@),
{
    match date_of_stem(stem) {
        Err(e) => Err(e),
        Ok(date) => match metric_of_line(line, date, path) {
            None => Err(ExtractError::MalformedLine),
            Some(m) => Ok(m),
        },
    }
}

/// The metric that `line` records for the file `path`. The date is the one
/// that the stem of the file's name writes, whatever the platform takes the
/// stem to be.
pub fn extract_metric(line: &str, path: &str) -> (r: Result<Metric, ExtractError>)
    ensures
        exists|stem: Option<Seq<char>>| metric_result(r) == #[trigger] dated_line_metric(line@, stem_date(stem), path@),
{
    let stem = file_stem(path);
    let r = metric_from_line(line, &stem, path);
    assert(metric_result(r) == dated_line_metric(line@, stem_date(text_of(stem)), path@));
    r
}

/// Whether `line` begins with one of the names `wanted`.
pub fn line_is_wanted(line: &Vec<char>, wanted: &Vec<Vec<char>>) -> (r: bool)
    ensures
        r == exists|k: int| 0 <= k < wanted@.len() && (#[trigger] wanted@[k])@.is_prefix_of(line@),
{
    let mut k: usize = 0;
    while k < wanted.len()
        invariant
            k <= wanted.len(),
            forall|j: int| 0 <= j < k ==> !(#[trigger] wanted@[j])@.is_prefix_of(line@),
        decreases wanted.len() - k,
    {
        if starts_with(line, &wanted[k]) {
            return true;
        }
        k += 1;
    }
    false
}

/// Puts `m` into `records`, in place of the record of the same name.
pub fn put(records: &mut Vec<Metric>, m: Metric)
    ensures
        metrics_of(final(records)@) == put_metric(metrics_of(old(records)@), m@),
{
    let ghost before = metrics_of(records@);
    let mut i: usize = 0;
    while i < records.len() && !(records[i].name == m.name)
        invariant
            i <= records.len(),
            metrics_of(records@) == before,
            forall|j: int| 0 <= j < i ==> (#[trigger] before[j]).name != m@.name,
        decreases records.len() - i,
    {
        assert(before[i as int] == records@[i as int]@);
        i += 1;
    }
    proof {
        if i < records.len() {
            assert(before[i as int] == records@[i as int]@);
        }
        lemma_first_index_is(before, |r: MetricView| r.name == m@.name, i as int);
    }
    if i < records.len() {
        records.remove(i);
        assert(metrics_of(records@) =~= before.remove(i as int));
    }
    let ghost kept = metrics_of(records@);
    records.push(m);
    assert(metrics_of(records@) =~= kept.push(m@));
}

/// The index of the first line from `from` on that holds three hyphens in a
/// row; the number of lines where there is none.
fn next_rule(lines: &Vec<String>, from: usize) -> (r: usize)
    requires
        from <= lines.len(),
    ensures
        from <= r <= lines.len(),
        r - from == first_rule(texts_of(lines@).skip(from as int)),
{
    let ghost rest = texts_of(lines@).skip(from as int);
    let mut i: usize = from;
    while i < lines.len()
        invariant
            from <= i <= lines.len(),
            rest == texts_of(lines@).skip(from as int),
            forall|j: int| 0 <= j < i - from ==> !has_rule(#[trigger] rest[j]),
        decreases lines.len() - i,
    {
        let cs = chars_of(lines[i].as_str());
        if contains_rule(&cs) {
            proof {
                assert(rest[i - from] == lines@[i as int]@);
                lemma_first_index_is(rest, |l: Seq<char>| has_rule(l), i - from);
            }
            return i;
        }
        assert(rest[i - from] == lines@[i as int]@);
        i += 1;
    }
    proof {
        lemma_first_index_is(rest, |l: Seq<char>| has_rule(l), i - from);
    }
    i
}

/// The metrics that the file `path` records, given its lines and the stem of
/// its name: those of the metric lines of its front matter, the last line of
/// a name standing for that name. Where a metric line is found and the stem
/// writes no date, or the line holds no colon, the file yields the error and
/// no metric.
pub fn extract_records(lines: &Vec<String>, wanted: &Vec<String>, stem: &Option<String>, path: &str) -> (r:
    Result<Vec<Metric>, ExtractError>)
    ensures
        metrics_result(r) == file_metrics(
            texts_of(lines@),
            texts_of(wanted@),
            text_of(*stem),
            path@,
        ),
{
    let ghost all = texts_of(lines@);
    let ghost names = texts_of(wanted@);
    let ghost date = stem_date(text_of(*stem));
    let mut records: Vec<Metric> = Vec::new();
    let open = next_rule(lines, 0);
    assert(all.skip(0) =~= all);
    if open >= lines.len() {
        assert(metrics_of(records@) =~= Seq::<MetricView>::empty());
        return Ok(records);
    }
    let close = next_rule(lines, open + 1);
    let ghost block = front_matter(all);
    assert(block == all.skip(open + 1).take(close - open - 1));

    let mut prefixes: Vec<Vec<char>> = Vec::new();
    let mut k: usize = 0;
    while k < wanted.len()
        invariant
            k <= wanted.len(),
            prefixes@.len() == k,
            forall|j: int| 0 <= j < k ==> (#[trigger] prefixes@[j])@ == wanted@[j]@,
        decreases wanted.len() - k,
    {
        prefixes.push(chars_of(wanted[k].as_str()));
        k += 1;
    }

    let mut i: usize = open + 1;
    assert(block.take(0) =~= Seq::<Seq<char>>::empty());
    assert(metrics_of(records@) =~= Seq::<MetricView>::empty());
    while i < close
        invariant
            open + 1 <= i <= close <= lines.len(),
            all == texts_of(lines@),
            names == texts_of(wanted@),
            date == stem_date(text_of(*stem)),
            block == all.skip(open + 1).take(close - open - 1),
            block == front_matter(all),
            prefixes@.len() == wanted@.len(),
            forall|j: int| 0 <= j < wanted@.len() ==> (#[trigger] prefixes@[j])@ == wanted@[j]@,
            block_metrics(block.take(i - open - 1), names, date, path@) == Ok::<Seq<MetricView>, ExtractError>(
                metrics_of(records@),
            ),
        decreases close - i,
    {
        let line = lines[i].as_str();
        let cs = chars_of(line);
        let ghost done = block.take(i - open - 1);
        let ghost next = block.take(i - open);
        proof {
            assert(next.drop_last() =~= done);
            assert(next.last() == line@);
            if is_metric_line(line@, names) {
                let w = choose|w: int| 0 <= w < names.len() && (#[trigger] names[w]).is_prefix_of(line@);
                assert(prefixes@[w]@ == names[w]);
            }
        }
        if line_is_wanted(&cs, &prefixes) {
            proof {
                let w = choose|w: int| 0 <= w < prefixes@.len() && (#[trigger] prefixes@[w])@.is_prefix_of(cs@);
                assert(names[w] == prefixes@[w]@);
                assert(names[w].is_prefix_of(line@));
                assert(is_metric_line(line@, names));
            }
            match metric_from_line(line, stem, path) {
                Err(e) => {
                    proof {
                        lemma_block_error_stays(block, names, date, path@, i - open);
                        assert(block.take(block.len() as int) =~= block);
                    }
                    return Err(e);
                },
                Ok(m) => {
                    put(&mut records, m);
                },
            }
        }
        i += 1;
    }
    assert(block.take(block.len() as int) =~= block);
    Ok(records)
}

/// An error among the first `k` lines of a block is the error of the block.
proof fn lemma_block_error_stays(
    block: Seq<Seq<char>>,
    wanted: Seq<Seq<char>>,
    date: Result<int, ExtractError>,
    path: Seq<char>,
    k: int,
)
    requires
        0 <= k <= block.len(),
        block_metrics(block.take(k), wanted, date, path) is Err,
    ensures
        block_metrics(block, wanted, date, path) == block_metrics(block.take(k), wanted, date, path),
    decreases block.len() - k,
{
    if k == block.len() {
        assert(block.take(k) =~= block);
    } else {
        let next = block.take(k + 1);
        assert(next.drop_last() =~= block.take(k));
        lemma_block_error_stays(block, wanted, date, path, k + 1);
    }
}

/// Lines outside the front matter are never read: whatever stands before the
/// opening line and after the closing line, the file records what the lines
/// between them record.
pub proof fn lemma_outside_lines_ignored(
    before: Seq<Seq<char>>,
    open: Seq<char>,
    block: Seq<Seq<char>>,
    close: Seq<char>,
    after: Seq<Seq<char>>,
    wanted: Seq<Seq<char>>,
    stem: Option<Seq<char>>,
    path: Seq<char>,
)
    requires
        forall|i: int| 0 <= i < before.len() ==> !has_rule(#[trigger] before[i]),
        has_rule(open),
        forall|i: int| 0 <= i < block.len() ==> !has_rule(#[trigger] block[i]),
        has_rule(close),
    ensures
        front_matter(before + seq![open] + block + seq![close] + after) == block,
        file_metrics(before + seq![open] + block + seq![close] + after, wanted, stem, path) == block_metrics(
            block,
            wanted,
            stem_date(stem),
            path,
        ),
{
    let lines = before + seq![open] + block + seq![close] + after;
    let ruled = |l: Seq<char>| has_rule(l);
    assert forall|i: int| 0 <= i < before.len() implies !ruled(#[trigger] lines[i]) by {
        assert(lines[i] == before[i]);
    }
    assert(lines[before.len() as int] == open);
    lemma_first_index_is(lines, ruled, before.len() as int);
    let rest = lines.skip(before.len() as int + 1);
    assert forall|i: int| 0 <= i < block.len() implies !ruled(#[trigger] rest[i]) by {
        assert(rest[i] == block[i]);
    }
    assert(rest[block.len() as int] == close);
    lemma_first_index_is(rest, ruled, block.len() as int);
    assert(rest.take(block.len() as int) =~= block);
}

/// A file without an opening line records nothing.
pub proof fn lemma_no_front_matter(lines: Seq<Seq<char>>, wanted: Seq<Seq<char>>, stem: Option<Seq<char>>, path: Seq<char>)
    requires
        forall|i: int| 0 <= i < lines.len() ==> !has_rule(#[trigger] lines[i]),
    ensures
        file_metrics(lines, wanted, stem, path) == Ok::<Seq<MetricView>, ExtractError>(Seq::empty()),
{
    let ruled = |l: Seq<char>| has_rule(l);
    lemma_first_index_is(lines, ruled, lines.len() as int);
}

} // verus!
