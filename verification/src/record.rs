//! What is recorded of a run: one row for each invocation, and a summary of the
//! whole.
use crate::cell::Cell;
use crate::platform::InvokeResult;
use crate::report::{Millis, Report, ReportView};
use crate::text::{lines_of, pieces, texts, without_cr};
use crate::text_lemmas::{lacks, lemma_last_piece, lemma_single_piece};
use vstd::prelude::*;
use vstd::string::*;

verus! {

/// Sizes of a function's artifact.
#[derive(Debug, Clone, Copy, PartialEq, Eq, Structural)]
pub struct ArtifactSizes {
    pub zip: u64,
    pub unzipped: u64,
}

/// One recorded invocation.
#[derive(Debug, Clone)]
pub struct InvocationRow {
    pub run_id: String,
    pub ts_unix_ms: u128,
    pub lang: String,
    pub scenario: String,
    pub memory_mb: i32,
    pub arch: String,
    pub opt: Option<String>,
    pub snapstart: bool,
    pub jitter: Option<String>,
    pub runtime_id: String,
    pub function_name: String,
    pub artifact_zip_bytes: u64,
    pub artifact_unzipped_bytes: u64,
    pub cycle: u32,
    pub idx_in_cycle: u32,
    pub is_cold: bool,
    pub cold_nonce: String,
    pub request_id: String,
    pub invoke_status: i32,
    pub function_error: Option<String>,
    pub init_ms: Option<Millis>,
    pub restore_ms: Option<Millis>,
    pub duration_ms: Millis,
    pub billed_ms: Millis,
    pub memory_size_mb: i64,
    pub max_memory_used_mb: i64,
}

/// A row in plain values: the cell that was invoked, where in the run, and what
/// came back.
pub ghost struct RowView {
    pub run_id: Seq<char>,
    pub ts_unix_ms: u128,
    pub lang: Seq<char>,
    pub scenario: Seq<char>,
    pub memory_mb: i32,
    pub arch: Seq<char>,
    pub opt: Option<Seq<char>>,
    pub snapstart: bool,
    pub jitter: Option<Seq<char>>,
    pub runtime_id: Seq<char>,
    pub function_name: Seq<char>,
    pub sizes: ArtifactSizes,
    pub cycle: u32,
    pub idx_in_cycle: u32,
    pub is_cold: bool,
    pub cold_nonce: Seq<char>,
    pub invoke_status: i32,
    pub function_error: Option<Seq<char>>,
    pub report: ReportView,
}

/// The text of an optional string.
pub open spec fn maybe_text(s: Option<String>) -> Option<Seq<char>> {
    match s {
        Some(t) => Some(t@),
        None => None,
    }
}

/// The text of an optional measurement.
pub open spec fn maybe_millis(m: Option<Millis>) -> Option<Seq<char>> {
    match m {
        Some(t) => Some(t.text@),
        None => None,
    }
}

impl InvocationRow {
    /// The row in plain values.
    pub open spec fn view(self) -> RowView {
        RowView {
            run_id: self.run_id@,
            ts_unix_ms: self.ts_unix_ms,
            lang: self.lang@,
            scenario: self.scenario@,
            memory_mb: self.memory_mb,
            arch: self.arch@,
            opt: maybe_text(self.opt),
            snapstart: self.snapstart,
            jitter: maybe_text(self.jitter),
            runtime_id: self.runtime_id@,
            function_name: self.function_name@,
            sizes: (ArtifactSizes {
                zip: self.artifact_zip_bytes,
                unzipped: self.artifact_unzipped_bytes,
            }),
            cycle: self.cycle,
            idx_in_cycle: self.idx_in_cycle,
            is_cold: self.is_cold,
            cold_nonce: self.cold_nonce@,
            invoke_status: self.invoke_status,
            function_error: maybe_text(self.function_error),
            report: ReportView {
                request_id: self.request_id@,
                duration: self.duration_ms.text@,
                billed: self.billed_ms.text@,
                memory_size_mb: self.memory_size_mb as int,
                max_memory_used_mb: self.max_memory_used_mb as int,
                init: maybe_millis(self.init_ms),
                restore: maybe_millis(self.restore_ms),
            },
        }
    }
}

/// The row of an invocation of a cell. Every dimension of the cell is recorded;
/// `opt` and `jitter` stay empty for cells without them.
pub open spec fn row_of(
    cell: Cell,
    run_id: Seq<char>,
    sizes: ArtifactSizes,
    cycle: u32,
    idx_in_cycle: u32,
    is_cold: bool,
    nonce: Seq<char>,
    res: InvokeResult,
    report: ReportView,
    ts_unix_ms: u128,
) -> RowView {
    RowView {
        run_id,
        ts_unix_ms,
        lang: cell.lang.name(),
        scenario: cell.scenario.name(),
        memory_mb: cell.memory_mb,
        arch: cell.arch.name(),
        opt: match cell.opt {
            Some(o) => Some(o.name()),
            None => None,
        },
        snapstart: cell.snapstart,
        jitter: match cell.jitter {
            Some(j) => Some(j.name()),
            None => None,
        },
        runtime_id: cell.lang.runtime_id(),
        function_name: cell.full_name(),
        sizes,
        cycle,
        idx_in_cycle,
        is_cold,
        cold_nonce: nonce,
        invoke_status: res.status_code,
        function_error: maybe_text(res.function_error),
        report,
    }
}

fn copy_millis(m: &Millis) -> (r: Millis)
    ensures
        r.text@ == m.text@,
{
    Millis { text: m.text.clone() }
}

fn copy_maybe_millis(m: &Option<Millis>) -> (r: Option<Millis>)
    ensures
        maybe_millis(r) == maybe_millis(*m),
{
    match m {
        Some(t) => Some(copy_millis(t)),
        None => None,
    }
}

/// A copy of an optional string.
pub fn copy_maybe(s: &Option<String>) -> (r: Option<String>)
    ensures
        maybe_text(r) == maybe_text(*s),
{
    match s {
        Some(t) => Some(t.clone()),
        None => None,
    }
}

/// Builds the row of a judged invocation, stamped with the given time. It writes
/// nothing, so rows can be kept back until a whole cycle holds.
pub fn build_row(
    cell: &Cell,
    run_id: &str,
    sizes: ArtifactSizes,
    cycle: u32,
    idx_in_cycle: u32,
    is_cold: bool,
    nonce: &str,
    res: &InvokeResult,
    report: &Report,
    ts_unix_ms: u128,
) -> (r: InvocationRow)
    ensures
        r@ == row_of(
            *cell,
            run_id@,
            sizes,
            cycle,
            idx_in_cycle,
            is_cold,
            nonce@,
            *res,
            report@,
            ts_unix_ms,
        ),
        r.request_id@ == report.request_id@,
        r.duration_ms.text@ == report.duration_ms.text@,
        r.billed_ms.text@ == report.billed_ms.text@,
        r.memory_size_mb == report.memory_size_mb,
        r.max_memory_used_mb == report.max_memory_used_mb,
        maybe_millis(r.init_ms) == maybe_millis(report.init_ms),
        maybe_millis(r.restore_ms) == maybe_millis(report.restore_ms),
        r.run_id@ == run_id@,
        r.ts_unix_ms == ts_unix_ms,
        r.memory_mb == cell.memory_mb,
        r.snapstart == cell.snapstart,
        r.artifact_zip_bytes == sizes.zip,
        r.artifact_unzipped_bytes == sizes.unzipped,
        r.cycle == cycle,
        r.idx_in_cycle == idx_in_cycle,
        r.is_cold == is_cold,
        r.cold_nonce@ == nonce@,
        r.invoke_status == res.status_code,
        maybe_text(r.function_error) == maybe_text(res.function_error),
{
    let opt: Option<String> = match cell.opt {
        Some(o) => Some(o.as_str().to_owned()),
        None => None,
    };
    let jitter: Option<String> = match cell.jitter {
        Some(j) => Some(j.as_str().to_owned()),
        None => None,
    };
    InvocationRow {
        run_id: run_id.to_owned(),
        ts_unix_ms,
        lang: cell.lang.as_str().to_owned(),
        scenario: cell.scenario.as_str().to_owned(),
        memory_mb: cell.memory_mb,
        arch: cell.arch.as_str().to_owned(),
        opt,
        snapstart: cell.snapstart,
        jitter,
        runtime_id: cell.lang.runtime().to_owned(),
        function_name: cell.function_name(),
        artifact_zip_bytes: sizes.zip,
        artifact_unzipped_bytes: sizes.unzipped,
        cycle,
        idx_in_cycle,
        is_cold,
        cold_nonce: nonce.to_owned(),
        request_id: report.request_id.clone(),
        invoke_status: res.status_code,
        function_error: copy_maybe(&res.function_error),
        init_ms: copy_maybe_millis(&report.init_ms),
        restore_ms: copy_maybe_millis(&report.restore_ms),
        duration_ms: copy_millis(&report.duration_ms),
        billed_ms: copy_millis(&report.billed_ms),
        memory_size_mb: report.memory_size_mb,
        max_memory_used_mb: report.max_memory_used_mb,
    }
}

/// Lines one after the other, each with its newline.
pub open spec fn framed(lines: Seq<Seq<char>>) -> Seq<char>
    decreases lines.len(),
{
    if lines.len() == 0 {
        Seq::empty()
    } else {
        (framed(lines.drop_last()) + lines.last()).push('\n')
    }
}

/// Puts serialized rows one after the other, each on a line of its own.
pub fn frame_rows(lines: &Vec<String>) -> (r: String)
    ensures
        r@ == framed(texts(lines@)),
{
    proof {
        reveal_strlit("\n");
    }
    let mut out: String = String::new();
    let mut i: usize = 0;
    while i < lines.len()
        invariant
            i <= lines@.len(),
            "\n"@.len() == 1,
            "\n"@[0] == '\n',
            out@ == framed(texts(lines@).take(i as int)),
        decreases lines@.len() - i,
    {
        let ghost before = out@;
        out.append(lines[i].as_str());
        out.append("\n");
        proof {
            let head = texts(lines@).take(i + 1);
            assert(head.drop_last() =~= texts(lines@).take(i as int));
            assert(head.last() == lines@[i as int]@);
            assert(out@ =~= (before + lines@[i as int]@).push('\n'));
        }
        i = i + 1;
    }
    proof {
        assert(texts(lines@).take(lines@.len() as int) =~= texts(lines@));
    }
    out
}

proof fn lemma_framed_pieces(lines: Seq<Seq<char>>)
    requires
        forall|i: int| 0 <= i < lines.len() ==> lacks(#[trigger] lines[i], '\n'),
    ensures
        pieces(framed(lines), '\n') == lines.push(Seq::empty()),
    decreases lines.len(),
{
    if lines.len() == 0 {
        assert(pieces(framed(lines), '\n') =~= lines.push(Seq::empty()));
    } else {
        let front = lines.drop_last();
        assert forall|i: int| 0 <= i < front.len() implies lacks(#[trigger] front[i], '\n') by {
            assert(front[i] == lines[i]);
        }
        lemma_framed_pieces(front);
        let body = framed(front) + lines.last();
        assert(lacks(lines[lines.len() - 1], '\n'));
        if front.len() == 0 {
            assert(body =~= lines.last());
            lemma_single_piece(lines.last(), '\n');
            assert(pieces(body, '\n') =~= lines);
        } else {
            let earlier = framed(front).drop_last();
            assert(framed(front) =~= earlier.push('\n'));
            lemma_last_piece(earlier, Seq::empty(), '\n');
            assert(earlier.push('\n') + Seq::<char>::empty() =~= framed(front));
            lemma_last_piece(earlier, lines.last(), '\n');
            assert(earlier.push('\n') + lines.last() =~= body);
            assert(pieces(earlier, '\n').push(Seq::<char>::empty()) == front.push(
                Seq::<char>::empty(),
            ));
            assert(pieces(earlier, '\n') =~= front) by {
                let a = pieces(earlier, '\n').push(Seq::<char>::empty());
                let b = front.push(Seq::<char>::empty());
                assert(a.drop_last() =~= pieces(earlier, '\n'));
                assert(b.drop_last() =~= front);
            }
            assert(pieces(body, '\n') =~= lines);
        }
        lemma_last_piece(body, Seq::empty(), '\n');
        assert(body.push('\n') + Seq::<char>::empty() =~= body.push('\n'));
    }
}

/// Framed rows are read back line by line as they were, as long as no row holds a
/// line ending itself.
pub proof fn law_framed_rows_read_back(lines: Seq<Seq<char>>)
    requires
        forall|i: int|
            0 <= i < lines.len() ==> lacks(#[trigger] lines[i], '\n') && lacks(lines[i], '\r'),
    ensures
        lines_of(framed(lines)) == lines,
{
    lemma_framed_pieces(lines);
    let all = lines.push(Seq::empty());
    assert(all.drop_last() =~= lines);
    assert forall|i: int| 0 <= i < lines.len() implies without_cr(#[trigger] lines[i])
        == lines[i] by {
        let line = lines[i];
        if line.len() > 0 {
            assert(line[line.len() - 1] != '\r');
        }
    }
    assert(lines.map_values(|p: Seq<char>| without_cr(p)) =~= lines);
}

} // verus!
