//! The status report: one labelled line per present field, in the fixed field
//! order, under a header line.

use vstd::prelude::*;
use vstd::string::*;
use crate::telemetry::{
    FieldView, FieldValue, FIELD_COUNT, field, field_spec, record_ok, opt_view, TelemetryRecord,
    Document, RawView, record_of, decode_reply, json_reply,
};
use crate::command::is_success;
use crate::error::{CliError, Command};
use crate::text::{push_str, string_of};

verus! {

/// Width that labels are padded to before the `": "` separator.
pub const LABEL_WIDTH: usize = 16;

/// The header line that opens the status report.
pub const REPORT_HEADER: &'static str = "=== Bitaxe System Info ===";

/// One line of the report.
pub struct DisplayLine {
    pub label: String,
    pub value: String,
}

/// The text shown for field `i` holding `v`: a number with the field's digits
/// after the point and its unit, a string verbatim.
pub open spec fn value_text(i: int, v: FieldView) -> Seq<char> {
    let f = field_spec(i);
    match v {
        FieldView::Number(d) => d.fixed_spec(f.places as nat, f.shift as nat) + if f.unit@.len()
            > 0 {
            " "@ + f.unit@
        } else {
            Seq::<char>::empty()
        },
        FieldView::Text(s) => s,
    }
}

/// The lines of the fields before `n` that `rec` holds, as (field index, value
/// text), in field order.
pub open spec fn lines_upto(rec: Seq<Option<FieldView>>, n: nat) -> Seq<(int, Seq<char>)>
    decreases n,
{
    if n == 0 {
        Seq::empty()
    } else {
        let prev = lines_upto(rec, (n - 1) as nat);
        match rec[n - 1] {
            Some(v) => prev.push((n - 1, value_text(n - 1, v))),
            None => prev,
        }
    }
}

/// The report lines of a record.
pub open spec fn report_lines(rec: Seq<Option<FieldView>>) -> Seq<(int, Seq<char>)> {
    lines_upto(rec, FIELD_COUNT as nat)
}

/// `label` padded with spaces to the label width, then `": "` and `value`.
pub open spec fn line_text(label: Seq<char>, value: Seq<char>) -> Seq<char> {
    let pad: nat = if label.len() < LABEL_WIDTH {
        (LABEL_WIDTH - label.len()) as nat
    } else {
        0
    };
    label + Seq::new(pad, |i: int| ' ') + ": "@ + value
}

impl DisplayLine {
    /// The line as printed: the label padded to the label width, `": "`, the value.
    pub fn text(&self) -> (r: String)
        ensures
            r@ == line_text(self.label@, self.value@),
    {
        let mut out: Vec<char> = Vec::new();
        push_str(self.label.as_str(), &mut out);
        let n = self.label.as_str().unicode_len();
        let mut k: usize = n;
        while k < LABEL_WIDTH
            invariant
                n <= k,
                k <= LABEL_WIDTH || k == n,
                n == self.label@.len(),
                out@ == self.label@ + Seq::new((k - n) as nat, |i: int| ' '),
            decreases LABEL_WIDTH - k,
        {
            out.push(' ');
            k = k + 1;
            assert(out@ =~= self.label@ + Seq::new((k - n) as nat, |i: int| ' '));
        }
        push_str(": ", &mut out);
        push_str(self.value.as_str(), &mut out);
        assert(out@ =~= line_text(self.label@, self.value@));
        string_of(&out)
    }
}

/// The value text of field `i` holding `v`.
fn value_string(i: usize, v: &FieldValue) -> (r: String)
    requires
        i < FIELD_COUNT,
        v@ matches FieldView::Number(d) ==> d.wf(),
    ensures
        r@ == value_text(i as int, v@),
{
    let f = field(i);
    match v {
        FieldValue::Number(d) => {
            let mut s = d.to_fixed(f.places, f.shift);
            if f.unit.unicode_len() > 0 {
                s.append(" ");
                s.append(f.unit);
            }
            assert(s@ =~= value_text(i as int, v@));
            s
        },
        FieldValue::Text(s) => s.clone(),
    }
}

/// The report lines of `record`: one per present field, in the fixed field
/// order; an absent field gives no line.
pub fn render(record: &TelemetryRecord) -> (lines: Vec<DisplayLine>)
    requires
        record_ok(record@),
    ensures
        lines@.len() == report_lines(record@).len(),
        forall|j: int|
            0 <= j < lines@.len() ==> (#[trigger] lines@[j]).label@ == field_spec(
                report_lines(record@)[j].0,
            ).label@ && lines@[j].value@ == report_lines(record@)[j].1,
{
    let mut lines: Vec<DisplayLine> = Vec::new();
    let mut i: usize = 0;
    while i < FIELD_COUNT
        invariant
            i <= FIELD_COUNT,
            record_ok(record@),
            record.fields@.len() == FIELD_COUNT,
            lines@.len() == lines_upto(record@, i as nat).len(),
            forall|j: int|
                0 <= j < lines@.len() ==> (#[trigger] lines@[j]).label@ == field_spec(
                    lines_upto(record@, i as nat)[j].0,
                ).label@ && lines@[j].value@ == lines_upto(record@, i as nat)[j].1,
        decreases FIELD_COUNT - i,
    {
        assert(record@[i as int] == opt_view(record.fields@[i as int]));
        match &record.fields[i] {
            Some(v) => {
                let f = field(i);
                let value = value_string(i, v);
                lines.push(DisplayLine { label: String::from_str(f.label), value });
            },
            None => {},
        }
        i = i + 1;
    }
    lines
}

/// The printed status report of the reply `doc`: the header line, then one
/// line per field that the reply holds, in the fixed field order.
pub fn status_report(doc: &Document) -> (r: Vec<String>)
    ensures
        is_report_of(r@, doc@),
        r@.len() == 1 + report_lines(record_of(doc@)).len(),
        r@[0]@ == REPORT_HEADER@,
        forall|j: int|
            0 <= j < report_lines(record_of(doc@)).len() ==> (#[trigger] r@[j + 1])@ == line_text(
                field_spec(report_lines(record_of(doc@))[j].0).label@,
                report_lines(record_of(doc@))[j].1,
            ),
{
    let record = TelemetryRecord::extract(doc);
    let lines = render(&record);
    let mut out: Vec<String> = Vec::new();
    out.push(String::from_str(REPORT_HEADER));
    let mut j: usize = 0;
    while j < lines.len()
        invariant
            j <= lines@.len(),
            out@.len() == 1 + j,
            out@[0]@ == REPORT_HEADER@,
            forall|t: int|
                0 <= t < j ==> (#[trigger] out@[t + 1])@ == line_text(
                    lines@[t].label@,
                    lines@[t].value@,
                ),
        decreases lines@.len() - j,
    {
        out.push(lines[j].text());
        j = j + 1;
    }
    out
}

/// Whether `r` is the printed status report of the document `doc`.
pub open spec fn is_report_of(r: Seq<String>, doc: Seq<(Seq<char>, RawView)>) -> bool {
    &&& r.len() == 1 + report_lines(record_of(doc)).len()
    &&& r[0]@ == REPORT_HEADER@
    &&& forall|j: int|
        0 <= j < report_lines(record_of(doc)).len() ==> (#[trigger] r[j + 1])@ == line_text(
            field_spec(report_lines(record_of(doc))[j].0).label@,
            report_lines(record_of(doc))[j].1,
        )
}

/// What a status request prints once the device answered `code` with `body`:
/// `HttpStatusFailure` for a status outside `200..=299`, else
/// `ResponseDecodeFailure` for a body that is no JSON, else the report of the
/// body's members (none where it is no object).
pub fn status_outcome(code: u16, body: &str) -> (r: Result<Vec<String>, CliError>)
    ensures
        !is_success(code) ==> (r matches Err(CliError::HttpStatusFailure(c, k)) && c
            == Command::Status && k == code),
        is_success(code) ==> match json_reply(body@) {
            None => r matches Err(CliError::ResponseDecodeFailure(_)),
            Some(None) => r matches Ok(lines) && is_report_of(
                lines@,
                Seq::<(Seq<char>, RawView)>::empty(),
            ),
            Some(Some(members)) => r matches Ok(lines) && is_report_of(lines@, members),
        },
{
    match Command::Status.check_reply(code) {
        Ok(()) => {},
        Err(e) => {
            return Err(e);
        },
    }
    match decode_reply(body) {
        Ok(doc) => Ok(status_report(&doc)),
        Err(e) => Err(e),
    }
}

/// The report holds exactly the fields that the record holds, each once, in
/// the fixed field order, whatever order the reply listed them in.
pub proof fn lemma_report_lines_in_field_order(rec: Seq<Option<FieldView>>, n: nat)
    requires
        n <= rec.len(),
    ensures
        forall|j: int|
            0 <= j < lines_upto(rec, n).len() ==> 0 <= (#[trigger] lines_upto(rec, n)[j]).0 < n
                && rec[lines_upto(rec, n)[j].0] is Some,
        forall|j1: int, j2: int|
            0 <= j1 < j2 < lines_upto(rec, n).len() ==> (#[trigger] lines_upto(rec, n)[j1]).0
                < (#[trigger] lines_upto(rec, n)[j2]).0,
        forall|i: int|
            0 <= i < n && (#[trigger] rec[i]) is Some ==> exists|j: int|
                0 <= j < lines_upto(rec, n).len() && lines_upto(rec, n)[j].0 == i,
    decreases n,
{
    if n > 0 {
        let m = (n - 1) as nat;
        lemma_report_lines_in_field_order(rec, m);
        let prev = lines_upto(rec, m);
        let cur = lines_upto(rec, n);
        if rec[m as int] is Some {
            assert(cur == prev.push((m as int, value_text(m as int, rec[m as int]->0))));
            assert forall|i: int| 0 <= i < n && (#[trigger] rec[i]) is Some implies exists|j: int|
                0 <= j < cur.len() && cur[j].0 == i by {
                if i == m {
                    assert(cur[prev.len() as int].0 == i);
                } else {
                    let j = choose|j: int| 0 <= j < prev.len() && prev[j].0 == i;
                    assert(cur[j] == prev[j]);
                }
            }
        } else {
            assert(cur == prev);
        }
    }
}

} // verus!
