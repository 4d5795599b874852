//! The batch executor: runs every row through the validator pipeline,
//! groups rows into batches bounded by a byte budget, and renders the
//! per-row output lines and the aggregate error report.
//!
//! Batching never changes what is written for a row: the contract of
//! [`run_pipeline`] states that the output sequence equals the sequence
//! obtained by evaluating the pipeline on each row independently, in the
//! original row order, whatever the byte limit.

use vstd::prelude::*;

use crate::text::{chars_string, push_chars, str_chars, trim_chars, trim_spec};
use crate::validators::{validator_fixes, validator_out, RowValidator};

verus! {

/// Every validator of the pipeline is well formed.
pub open spec fn pipeline_wf(vals: Seq<RowValidator>) -> bool {
    forall|k: int| 0 <= k < vals.len() ==> (#[trigger] vals[k]).wf()
}

/// Folds the pipeline over validators `i` and later: each validator sees the
/// text its predecessors left, its diagnostics accumulate in pipeline order
/// with one blank after each, and every non-empty message is also collected
/// for the run's report.  Yields (final text, accumulated message, collected
/// messages).
pub open spec fn chained_eval(vals: Seq<RowValidator>, i: int, row: int, text: Seq<char>) -> (
    Seq<char>,
    Seq<char>,
    Seq<Seq<char>>,
)
    decreases vals.len() - i,
    when 0 <= i <= vals.len()
{
    if i == vals.len() {
        (text, Seq::empty(), Seq::empty())
    } else {
        let st = validator_out(vals[i], text, row);
        let rec = chained_eval(vals, i + 1, row, st.0);
        let msg_part = if st.1.len() > 0 {
            st.1 + seq![' ']
        } else {
            Seq::<char>::empty()
        };
        let msgs_part = if st.1.len() > 0 {
            seq![st.1]
        } else {
            Seq::<Seq<char>>::empty()
        };
        (rec.0, msg_part + rec.1, msgs_part + rec.2)
    }
}

/// The line written for a row: the current text where it differs from the
/// original, else the trimmed diagnostics behind an arrow where any is
/// non-empty, else the row unchanged.
pub open spec fn row_output(line: Seq<char>, fixed: Seq<char>, message: Seq<char>) -> Seq<char> {
    if fixed != line {
        fixed
    } else if trim_spec(message).len() > 0 {
        "-> "@ + trim_spec(message)
    } else {
        line
    }
}

/// The line written for a row after the whole pipeline ran on it.
pub open spec fn row_line_out(vals: Seq<RowValidator>, line: Seq<char>, row: int) -> Seq<char> {
    let ev = chained_eval(vals, 0, row, line);
    row_output(line, ev.0, ev.1)
}

/// The messages a row contributes to the report, in pipeline order.
pub open spec fn row_msgs(vals: Seq<RowValidator>, line: Seq<char>, row: int) -> Seq<Seq<char>> {
    chained_eval(vals, 0, row, line).2
}

/// One row's evaluation: the line to write and the messages to report.
#[derive(Debug, Clone)]
pub struct RowResult {
    /// The output line for the row.
    pub line: String,
    /// The row's non-empty diagnostic messages, in pipeline order.
    pub messages: Vec<String>,
}

/// Whether any validator of the pipeline repairs rows; an executor chooses
/// chained or independent evaluation by this.
pub fn pipeline_should_fix(validators: &Vec<RowValidator>) -> (b: bool)
    ensures
        b == exists|k: int|
            0 <= k < validators@.len() && validator_fixes(#[trigger] validators@[k]),
{
    let mut k: usize = 0;
    while k < validators.len()
        invariant
            k <= validators@.len(),
            forall|j: int| 0 <= j < k ==> !validator_fixes(#[trigger] validators@[j]),
        decreases validators@.len() - k,
    {
        if validators[k].should_fix() {
            return true;
        }
        k += 1;
    }
    false
}

/// Runs the whole pipeline on one row: validators in pipeline order, each
/// seeing its predecessors' repairs, and decides the row's output line.
#[verifier::loop_isolation(false)]
pub fn evaluate_row(validators: &Vec<RowValidator>, line: &String, row: usize) -> (r: RowResult)
    requires
        pipeline_wf(validators@),
    ensures
        r.line@ == row_line_out(validators@, line@, row as int),
        r.messages.deep_view() == row_msgs(validators@, line@, row as int),
{
    let ghost vals = validators@;
    let mut fixed: String = line.clone();
    let mut msg: Vec<char> = Vec::new();
    let mut messages: Vec<String> = Vec::new();
    let mut i: usize = 0;
    assert(messages.deep_view() =~~= Seq::<Seq<char>>::empty());
    while i < validators.len()
        invariant
            i <= vals.len(),
            chained_eval(vals, 0, row as int, line@) == ({
                let rec = chained_eval(vals, i as int, row as int, fixed@);
                (rec.0, msg@ + rec.1, messages.deep_view() + rec.2)
            }),
        decreases vals.len() - i,
    {
        let ghost st = validator_out(vals[i as int], fixed@, row as int);
        let upd = validators[i].validate(fixed.as_str(), row);
        fixed = upd.fixed;
        let ghost old_msg = msg@;
        let ghost old_msgs = messages.deep_view();
        if !upd.message.as_str().is_empty() {
            push_chars(&mut msg, &str_chars(upd.message.as_str()));
            msg.push(' ');
            messages.push(upd.message);
            proof {
                let rec_next = chained_eval(vals, i + 1, row as int, st.0);
                assert(msg@ =~= old_msg + (st.1 + seq![' ']));
                assert(messages.deep_view() =~~= old_msgs + seq![st.1]);
                assert(old_msg + (st.1 + seq![' ']) + rec_next.1 =~= old_msg + ((st.1
                    + seq![' ']) + rec_next.1));
                assert(old_msgs + seq![st.1] + rec_next.2 =~~= old_msgs + (seq![st.1]
                    + rec_next.2));
            }
        } else {
            proof {
                let rec_next = chained_eval(vals, i + 1, row as int, st.0);
                assert(st.1 =~= Seq::<char>::empty());
                assert(old_msg + (Seq::<char>::empty() + rec_next.1) =~= old_msg + rec_next.1);
                assert(old_msgs + (Seq::<Seq<char>>::empty() + rec_next.2) =~~= old_msgs
                    + rec_next.2);
            }
        }
        i += 1;
    }
    proof {
        let rec = chained_eval(vals, vals.len() as int, row as int, fixed@);
        assert(msg@ + rec.1 =~= msg@);
        assert(messages.deep_view() + rec.2 =~~= messages.deep_view());
    }
    let out_line = if !(fixed == *line) {
        fixed
    } else {
        let trimmed = trim_chars(&msg);
        if trimmed.len() > 0 {
            let mut o = str_chars("-> ");
            push_chars(&mut o, &trimmed);
            chars_string(&o)
        } else {
            line.clone()
        }
    };
    RowResult { line: out_line, messages }
}

/// The report messages collected from the first `n` rows, in row order and,
/// within a row, in pipeline order.
pub open spec fn msgs_upto(vals: Seq<RowValidator>, lines: Seq<Seq<char>>, n: int) -> Seq<
    Seq<char>,
>
    decreases n,
    when 0 <= n <= lines.len()
{
    if n <= 0 {
        Seq::empty()
    } else {
        msgs_upto(vals, lines, n - 1) + row_msgs(vals, lines[n - 1], n)
    }
}

/// Evaluates one batch of consecutive rows, appending output lines and
/// report messages in row order.
#[verifier::loop_isolation(false)]
fn process_batch(
    validators: &Vec<RowValidator>,
    batch: &Vec<String>,
    start: usize,
    outputs: &mut Vec<String>,
    messages: &mut Vec<String>,
    Ghost(ldv): Ghost<Seq<Seq<char>>>,
)
    requires
        pipeline_wf(validators@),
        old(outputs)@.len() == start,
        start + batch@.len() <= ldv.len(),
        ldv.len() <= usize::MAX,
        forall|k: int| 0 <= k < batch@.len() ==> (#[trigger] batch@[k])@ == ldv[start + k],
        forall|k: int|
            0 <= k < start ==> (#[trigger] old(outputs)@[k])@ == row_line_out(
                validators@,
                ldv[k],
                k + 1,
            ),
        old(messages).deep_view() == msgs_upto(validators@, ldv, start as int),
    ensures
        final(outputs)@.len() == start + batch@.len(),
        forall|k: int|
            0 <= k < start + batch@.len() ==> (#[trigger] final(outputs)@[k])@ == row_line_out(
                validators@,
                ldv[k],
                k + 1,
            ),
        final(messages).deep_view() == msgs_upto(validators@, ldv, start + batch@.len()),
{
    let mut b: usize = 0;
    while b < batch.len()
        invariant
            b <= batch@.len(),
            outputs@.len() == start + b,
            forall|k: int|
                0 <= k < start + b ==> (#[trigger] outputs@[k])@ == row_line_out(
                    validators@,
                    ldv[k],
                    k + 1,
                ),
            messages.deep_view() == msgs_upto(validators@, ldv, start + b),
        decreases batch@.len() - b,
    {
        let r = evaluate_row(validators, &batch[b], start + b + 1);
        let ghost old_msgs = messages.deep_view();
        outputs.push(r.line);
        let mut rm = r.messages;
        messages.append(&mut rm);
        proof {
            assert(batch@[b as int]@ == ldv[start + b]);
            assert(messages.deep_view() =~~= old_msgs + row_msgs(
                validators@,
                ldv[start + b],
                start + b + 1,
            ));
        }
        b += 1;
    }
}

/// The error report's lines: nothing without messages, else a blank line, a
/// header, and one indented line per message.
pub open spec fn report_lines(msgs: Seq<Seq<char>>) -> Seq<Seq<char>> {
    if msgs.len() == 0 {
        Seq::empty()
    } else {
        seq![Seq::<char>::empty(), "Errors:"@] + msgs.map_values(|m: Seq<char>| "  "@ + m)
    }
}

/// Renders the aggregate error report, line by line.
#[verifier::loop_isolation(false)]
pub fn format_report(messages: &Vec<String>) -> (out: Vec<String>)
    ensures
        out.deep_view() == report_lines(messages.deep_view()),
{
    let ghost mdv = messages.deep_view();
    let ghost mapped = mdv.map_values(|m: Seq<char>| "  "@ + m);
    let mut out: Vec<String> = Vec::new();
    if messages.len() == 0 {
        assert(out.deep_view() =~~= report_lines(mdv));
        return out;
    }
    out.push(chars_string(&Vec::new()));
    out.push(chars_string(&str_chars("Errors:")));
    let mut k: usize = 0;
    assert(out.deep_view() =~~= seq![Seq::<char>::empty(), "Errors:"@] + mapped.take(0));
    while k < messages.len()
        invariant
            k <= mdv.len(),
            out.deep_view() == seq![Seq::<char>::empty(), "Errors:"@] + mapped.take(k as int),
        decreases mdv.len() - k,
    {
        let mut line = str_chars("  ");
        push_chars(&mut line, &str_chars(messages[k].as_str()));
        let ghost prev = out.deep_view();
        let s_line = chars_string(&line);
        out.push(s_line);
        proof {
            assert(s_line@ == "  "@ + mdv[k as int]);
            assert(out.deep_view() =~~= prev.push(mapped[k as int]));
            assert(mapped.take(k + 1) =~= mapped.take(k as int).push(mapped[k as int]));
            assert((seq![Seq::<char>::empty(), "Errors:"@] + mapped.take(k as int)).push(
                mapped[k as int],
            ) =~~= seq![Seq::<char>::empty(), "Errors:"@] + mapped.take(k + 1));
        }
        k += 1;
    }
    assert(mapped.take(mdv.len() as int) =~= mapped);
    out
}

/// Everything a run produces: one output line per input row, the collected
/// report messages, and the rendered report where one was requested.
#[derive(Debug)]
pub struct PipelineOutput {
    /// One output line per input row, in input order.
    pub lines: Vec<String>,
    /// Every non-empty diagnostic message, in row order.
    pub messages: Vec<String>,
    /// The rendered error report; empty when not requested or nothing to
    /// report.
    pub report: Vec<String>,
}

/// Processes the whole stream: rows are grouped into batches that flush once
/// their cumulative byte size reaches the limit, every row runs through the
/// pipeline, and one line is emitted per row.
///
/// Batching order invariant: whatever the byte limit, the output sequence
/// equals the sequence obtained by evaluating the pipeline on each row
/// independently, in the original row order — the contract below says so for
/// every row index.
#[verifier::loop_isolation(false)]
pub fn run_pipeline(
    lines: &Vec<String>,
    validators: &Vec<RowValidator>,
    mem_limit_bytes: usize,
    report_requested: bool,
) -> (out: PipelineOutput)
    requires
        pipeline_wf(validators@),
    ensures
        out.lines@.len() == lines@.len(),
        forall|i: int|
            0 <= i < lines@.len() ==> (#[trigger] out.lines@[i])@ == row_line_out(
                validators@,
                lines.deep_view()[i],
                i + 1,
            ),
        out.messages.deep_view() == msgs_upto(
            validators@,
            lines.deep_view(),
            lines@.len() as int,
        ),
        out.report.deep_view() == if report_requested {
            report_lines(out.messages.deep_view())
        } else {
            Seq::<Seq<char>>::empty()
        },
{
    let ghost ldv = lines.deep_view();
    let mut outputs: Vec<String> = Vec::new();
    let mut messages: Vec<String> = Vec::new();
    let mut batch: Vec<String> = Vec::new();
    let mut done: usize = 0;
    let mut total_bytes: usize = 0;
    let mut i: usize = 0;
    let n = lines.len();
    while i < n
        invariant
            i <= ldv.len(),
            done + batch@.len() == i,
            outputs@.len() == done,
            forall|k: int|
                0 <= k < done ==> (#[trigger] outputs@[k])@ == row_line_out(
                    validators@,
                    ldv[k],
                    k + 1,
                ),
            messages.deep_view() == msgs_upto(validators@, ldv, done as int),
            forall|k: int| 0 <= k < batch@.len() ==> (#[trigger] batch@[k])@ == ldv[done + k],
        decreases ldv.len() - i,
    {
        let line = lines[i].clone();
        let len = line.as_str().len();
        total_bytes = if usize::MAX - total_bytes < len {
            usize::MAX
        } else {
            total_bytes + len
        };
        batch.push(line);
        if total_bytes >= mem_limit_bytes {
            process_batch(validators, &batch, done, &mut outputs, &mut messages, Ghost(ldv));
            done = done + batch.len();
            batch.clear();
            total_bytes = 0;
        }
        i += 1;
    }
    if batch.len() > 0 {
        process_batch(validators, &batch, done, &mut outputs, &mut messages, Ghost(ldv));
        done = done + batch.len();
        batch.clear();
    }
    let report: Vec<String> = if report_requested {
        format_report(&messages)
    } else {
        let empty_report: Vec<String> = Vec::new();
        assert(empty_report.deep_view() =~~= Seq::<Seq<char>>::empty());
        empty_report
    };
    PipelineOutput { lines: outputs, messages, report }
}


/// Where no validator of the pipeline fixes, the row text never changes on
/// its way through the chain: every validator sees the unmodified row, so
/// the validators may as well run independently against the same text, and
/// their diagnostics merged in pipeline order equal the chained ones.
pub proof fn lemma_no_fixer_keeps_text(vals: Seq<RowValidator>, i: int, row: int, text: Seq<char>)
    requires
        0 <= i <= vals.len(),
        forall|k: int| 0 <= k < vals.len() ==> !validator_fixes(#[trigger] vals[k]),
    ensures
        chained_eval(vals, i, row, text).0 == text,
    decreases vals.len() - i,
{
    if i == vals.len() {
    } else {
        crate::validators::lemma_nonfixer_keeps_text(vals[i], text, row);
        lemma_no_fixer_keeps_text(vals, i + 1, row, text);
    }
}

} // verus!\n