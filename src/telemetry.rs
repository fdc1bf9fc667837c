//! Telemetry: the reply document, the fixed list of fields the report shows,
//! their tolerant extraction and their display lines.

use vstd::prelude::*;
use vstd::string::*;
use crate::decimal::{
    Decimal, parsed, lemma_parsed_wf, number_text, same_value, lemma_equal_number_texts_parse_alike,
};
use crate::error::CliError;

verus! {

/// A member value of the device's JSON reply, as far as the report reads it.
pub enum RawValue {
    /// A JSON number, as its JSON text (`450.5`, `60`, `1e-7`).
    Number(String),
    /// A JSON string.
    Text(String),
    /// Any other JSON value (`null`, a boolean, an array, an object).
    Other,
}

pub ghost enum RawView {
    Number(Seq<char>),
    Text(Seq<char>),
    Other,
}

impl View for RawValue {
    type V = RawView;

    open spec fn view(&self) -> RawView {
        match self {
            RawValue::Number(t) => RawView::Number(t@),
            RawValue::Text(s) => RawView::Text(s@),
            RawValue::Other => RawView::Other,
        }
    }
}

/// A JSON object reply: its members in document order.
pub struct Document {
    pub entries: Vec<(String, RawValue)>,
}

pub open spec fn entry_view(e: (String, RawValue)) -> (Seq<char>, RawView) {
    (e.0@, e.1@)
}

impl View for Document {
    type V = Seq<(Seq<char>, RawView)>;

    open spec fn view(&self) -> Seq<(Seq<char>, RawView)> {
        self.entries@.map_values(|e: (String, RawValue)| entry_view(e))
    }
}

/// What the JSON text `body` holds: `None` where it is no JSON document or one
/// that the decoder refuses (a number beyond the range of `f64`, nesting deeper
/// than 128 levels), `Some(None)` where it is one but no object, else the
/// object's members.
pub uninterp spec fn json_reply(body: Seq<char>) -> Option<Option<Seq<(Seq<char>, RawView)>>>;

#[verifier::external_type_specification]
#[verifier::external_body]
pub struct ExJsonError(serde_json::Error);

/// Relies on `serde_json::from_str` into a `serde_json::Value`, and on the
/// `Display` of `serde_json::Number`: the object's members in the order of its
/// map, a number as its JSON text. The result depends on `body` alone.
#[verifier::external_body]
fn json_members(body: &str) -> (r: Result<Option<Vec<(String, RawValue)>>, serde_json::Error>)
    ensures
        match r {
            Ok(Some(v)) => json_reply(body@) == Some(
                Some(v@.map_values(|e: (String, RawValue)| entry_view(e))),
            ),
            Ok(None) => json_reply(body@) == Some(None::<Seq<(Seq<char>, RawView)>>),
            Err(_) => json_reply(body@) is None,
        },
{
    let value: serde_json::Value = serde_json::from_str(body)?;
    Ok(match value {
        serde_json::Value::Object(map) => Some(map.into_iter().map(|(k, v)| (k, match v {
            serde_json::Value::Number(n) => RawValue::Number(n.to_string()),
            serde_json::Value::String(s) => RawValue::Text(s),
            _ => RawValue::Other,
        })).collect()),
        _ => None,
    })
}

/// The document of a reply body: an object's members; a JSON value that is no
/// object has none. Text that is no JSON fails with `ResponseDecodeFailure`, and
/// so does JSON that the decoder refuses: a number beyond the range of `f64`, or
/// nesting deeper than 128 levels.
pub fn decode_reply(body: &str) -> (r: Result<Document, CliError>)
    ensures
        match json_reply(body@) {
            None => r matches Err(CliError::ResponseDecodeFailure(_)),
            Some(None) => r matches Ok(d) && d@ == Seq::<(Seq<char>, RawView)>::empty(),
            Some(Some(members)) => r matches Ok(d) && d@ == members,
        },
{
    match json_members(body) {
        Ok(Some(entries)) => Ok(Document { entries }),
        Ok(None) => {
            let d = Document { entries: Vec::new() };
            assert(d@ =~= Seq::<(Seq<char>, RawView)>::empty());
            Ok(d)
        },
        Err(e) => Err(CliError::ResponseDecodeFailure(e.to_string())),
    }
}

/// The value of the first member named `key`.
pub open spec fn lookup(doc: Seq<(Seq<char>, RawView)>, key: Seq<char>) -> Option<RawView>
    decreases doc.len(),
{
    if doc.len() == 0 {
        None
    } else if doc[0].0 == key {
        Some(doc[0].1)
    } else {
        lookup(doc.drop_first(), key)
    }
}

impl Document {
    /// The value of the first member named `key`.
    pub fn get(&self, key: &str) -> (r: Option<&RawValue>)
        ensures
            match r {
                Some(v) => lookup(self@, key@) == Some(v@),
                None => lookup(self@, key@) is None,
            },
    {
        let k = String::from_str(key);
        let n = self.entries.len();
        let mut i: usize = 0;
        assert(self@.subrange(0, n as int) =~= self@);
        while i < n
            invariant
                i <= n,
                n == self.entries@.len(),
                k@ == key@,
                lookup(self@, key@) == lookup(self@.subrange(i as int, n as int), key@),
            decreases n - i,
        {
            assert(self@.subrange(i as int, n as int).drop_first() =~= self@.subrange(
                (i + 1) as int,
                n as int,
            ));
            assert(self@.subrange(i as int, n as int)[0] == entry_view(self.entries@[i as int]));
            if self.entries[i].0 == k {
                return Some(&self.entries[i].1);
            }
            i = i + 1;
        }
        None
    }
}

/// How a field's value is read from the reply.
#[derive(Clone, Copy, Debug, PartialEq, Eq, Structural)]
pub enum FieldKind {
    /// A JSON number, kept as an exact decimal.
    Numeric,
    /// A JSON string, kept verbatim.
    Text,
    /// A JSON string verbatim, or a JSON number as its plain decimal text.
    NumericOrText,
}

/// One field of the report: the reply member it reads, how, and how it is shown.
#[derive(Clone, Copy, Debug)]
pub struct FieldSpec {
    pub key: &'static str,
    pub kind: FieldKind,
    pub label: &'static str,
    /// Digits after the point of a number.
    pub places: u64,
    /// A number is divided by `10^shift` before it is shown.
    pub shift: u64,
    /// Suffix after a number, with a space before it; none where empty.
    pub unit: &'static str,
}

/// Number of fields in the report.
pub const FIELD_COUNT: usize = 15;

/// The `i`-th field of the report, in report order.
pub open spec fn field_spec(i: int) -> FieldSpec {
    if i == 0 {
        FieldSpec { key: "hostname", kind: FieldKind::Text, label: "Hostname", places: 0, shift: 0, unit: "" }
    } else if i == 1 {
        FieldSpec { key: "hashRate", kind: FieldKind::Numeric, label: "Hashrate", places: 2, shift: 0, unit: "GH/s" }
    } else if i == 2 {
        FieldSpec { key: "bestDiff", kind: FieldKind::NumericOrText, label: "Best Diff", places: 0, shift: 0, unit: "" }
    } else if i == 3 {
        FieldSpec { key: "bestSessionDiff", kind: FieldKind::NumericOrText, label: "Best Session", places: 0, shift: 0, unit: "" }
    } else if i == 4 {
        FieldSpec { key: "sharesAccepted", kind: FieldKind::Numeric, label: "Shares Accepted", places: 0, shift: 0, unit: "" }
    } else if i == 5 {
        FieldSpec { key: "sharesRejected", kind: FieldKind::Numeric, label: "Shares Rejected", places: 0, shift: 0, unit: "" }
    } else if i == 6 {
        FieldSpec { key: "temp", kind: FieldKind::Numeric, label: "Core Temp", places: 1, shift: 0, unit: "°C" }
    } else if i == 7 {
        FieldSpec { key: "vrTemp", kind: FieldKind::Numeric, label: "VR Temp", places: 1, shift: 0, unit: "°C" }
    } else if i == 8 {
        FieldSpec { key: "power", kind: FieldKind::Numeric, label: "Power", places: 2, shift: 0, unit: "W" }
    } else if i == 9 {
        FieldSpec { key: "voltage", kind: FieldKind::Numeric, label: "PSU Voltage", places: 2, shift: 3, unit: "V" }
    } else if i == 10 {
        FieldSpec { key: "frequency", kind: FieldKind::Numeric, label: "Frequency", places: 0, shift: 0, unit: "MHz" }
    } else if i == 11 {
        FieldSpec { key: "coreVoltage", kind: FieldKind::Numeric, label: "Core V (set)", places: 0, shift: 0, unit: "mV" }
    } else if i == 12 {
        FieldSpec { key: "coreVoltageActual", kind: FieldKind::Numeric, label: "Core V (actual)", places: 0, shift: 0, unit: "mV" }
    } else if i == 13 {
        FieldSpec { key: "wifiRSSI", kind: FieldKind::Numeric, label: "WiFi RSSI", places: 0, shift: 0, unit: "dBm" }
    } else {
        FieldSpec { key: "wifiStatus", kind: FieldKind::Text, label: "WiFi Status", places: 0, shift: 0, unit: "" }
    }
}

/// The `i`-th field of the report, in report order.
pub fn field(i: usize) -> (f: FieldSpec)
    requires
        i < FIELD_COUNT,
    ensures
        f == field_spec(i as int),
{
    if i == 0 {
        FieldSpec { key: "hostname", kind: FieldKind::Text, label: "Hostname", places: 0, shift: 0, unit: "" }
    } else if i == 1 {
        FieldSpec { key: "hashRate", kind: FieldKind::Numeric, label: "Hashrate", places: 2, shift: 0, unit: "GH/s" }
    } else if i == 2 {
        FieldSpec { key: "bestDiff", kind: FieldKind::NumericOrText, label: "Best Diff", places: 0, shift: 0, unit: "" }
    } else if i == 3 {
        FieldSpec { key: "bestSessionDiff", kind: FieldKind::NumericOrText, label: "Best Session", places: 0, shift: 0, unit: "" }
    } else if i == 4 {
        FieldSpec { key: "sharesAccepted", kind: FieldKind::Numeric, label: "Shares Accepted", places: 0, shift: 0, unit: "" }
    } else if i == 5 {
        FieldSpec { key: "sharesRejected", kind: FieldKind::Numeric, label: "Shares Rejected", places: 0, shift: 0, unit: "" }
    } else if i == 6 {
        FieldSpec { key: "temp", kind: FieldKind::Numeric, label: "Core Temp", places: 1, shift: 0, unit: "°C" }
    } else if i == 7 {
        FieldSpec { key: "vrTemp", kind: FieldKind::Numeric, label: "VR Temp", places: 1, shift: 0, unit: "°C" }
    } else if i == 8 {
        FieldSpec { key: "power", kind: FieldKind::Numeric, label: "Power", places: 2, shift: 0, unit: "W" }
    } else if i == 9 {
        FieldSpec { key: "voltage", kind: FieldKind::Numeric, label: "PSU Voltage", places: 2, shift: 3, unit: "V" }
    } else if i == 10 {
        FieldSpec { key: "frequency", kind: FieldKind::Numeric, label: "Frequency", places: 0, shift: 0, unit: "MHz" }
    } else if i == 11 {
        FieldSpec { key: "coreVoltage", kind: FieldKind::Numeric, label: "Core V (set)", places: 0, shift: 0, unit: "mV" }
    } else if i == 12 {
        FieldSpec { key: "coreVoltageActual", kind: FieldKind::Numeric, label: "Core V (actual)", places: 0, shift: 0, unit: "mV" }
    } else if i == 13 {
        FieldSpec { key: "wifiRSSI", kind: FieldKind::Numeric, label: "WiFi RSSI", places: 0, shift: 0, unit: "dBm" }
    } else {
        FieldSpec { key: "wifiStatus", kind: FieldKind::Text, label: "WiFi Status", places: 0, shift: 0, unit: "" }
    }
}

/// A field value taken from the reply.
pub enum FieldValue {
    Number(Decimal),
    Text(String),
}

pub ghost enum FieldView {
    Number(Decimal),
    Text(Seq<char>),
}

impl View for FieldValue {
    type V = FieldView;

    open spec fn view(&self) -> FieldView {
        match self {
            FieldValue::Number(d) => FieldView::Number(*d),
            FieldValue::Text(s) => FieldView::Text(s@),
        }
    }
}

pub open spec fn opt_view(v: Option<FieldValue>) -> Option<FieldView> {
    match v {
        Some(x) => Some(x@),
        None => None,
    }
}

/// The value of field `i` in the reply `doc`: present only where the member
/// exists and has a type the field's kind takes.
pub open spec fn field_value(doc: Seq<(Seq<char>, RawView)>, i: int) -> Option<FieldView> {
    let f = field_spec(i);
    match lookup(doc, f.key@) {
        Some(RawView::Text(s)) => if f.kind != FieldKind::Numeric {
            Some(FieldView::Text(s))
        } else {
            None
        },
        Some(RawView::Number(t)) => match parsed(t) {
            Some(d) => if f.kind == FieldKind::Numeric {
                Some(FieldView::Number(d))
            } else if f.kind == FieldKind::NumericOrText {
                Some(FieldView::Text(d.canonical_spec()))
            } else {
                None
            },
            None => None,
        },
        _ => None,
    }
}

/// The field values of one reply, in report order; `None` marks an absent field.
pub struct TelemetryRecord {
    pub fields: Vec<Option<FieldValue>>,
}

impl View for TelemetryRecord {
    type V = Seq<Option<FieldView>>;

    open spec fn view(&self) -> Seq<Option<FieldView>> {
        self.fields@.map_values(|v: Option<FieldValue>| opt_view(v))
    }
}

/// A record of one value slot per field, whose numbers are well formed.
pub open spec fn record_ok(rec: Seq<Option<FieldView>>) -> bool {
    rec.len() == FIELD_COUNT && forall|i: int|
        0 <= i < rec.len() ==> (#[trigger] rec[i] matches Some(FieldView::Number(d)) ==> d.wf())
}

/// The record of the reply `doc`.
pub open spec fn record_of(doc: Seq<(Seq<char>, RawView)>) -> Seq<Option<FieldView>> {
    Seq::new(FIELD_COUNT as nat, |i: int| field_value(doc, i))
}

/// Value of field `i` read from `v`, where `v` is its member's value.
fn extract_field(v: Option<&RawValue>, f: FieldSpec) -> (r: Option<FieldValue>)
    ensures
        r matches Some(FieldValue::Number(d)) ==> d.wf(),
        opt_view(r) == match v {
            Some(RawValue::Text(s)) => if f.kind != FieldKind::Numeric {
                Some(FieldView::Text(s@))
            } else {
                None
            },
            Some(RawValue::Number(t)) => match parsed(t@) {
                Some(d) => if f.kind == FieldKind::Numeric {
                    Some(FieldView::Number(d))
                } else if f.kind == FieldKind::NumericOrText {
                    Some(FieldView::Text(d.canonical_spec()))
                } else {
                    None
                },
                None => None,
            },
            _ => None,
        },
{
    match v {
        Some(RawValue::Text(s)) => {
            if f.kind != FieldKind::Numeric {
                Some(FieldValue::Text(s.clone()))
            } else {
                None
            }
        },
        Some(RawValue::Number(t)) => {
            match Decimal::parse(t.as_str()) {
                Some(d) => {
                    if f.kind == FieldKind::Numeric {
                        Some(FieldValue::Number(d))
                    } else if f.kind == FieldKind::NumericOrText {
                        Some(FieldValue::Text(d.canonical_text()))
                    } else {
                        None
                    }
                },
                None => None,
            }
        },
        _ => None,
    }
}

impl TelemetryRecord {
    /// Reads every field of the report from `doc`, each on its own: a missing
    /// member, or one of a type the field does not take, leaves the field absent.
    /// Never fails, whatever the document holds.
    pub fn extract(doc: &Document) -> (r: TelemetryRecord)
        ensures
            r@ == record_of(doc@),
            r.fields@.len() == FIELD_COUNT,
            record_ok(r@),
    {
        let mut fields: Vec<Option<FieldValue>> = Vec::new();
        let mut i: usize = 0;
        while i < FIELD_COUNT
            invariant
                i <= FIELD_COUNT,
                fields@.len() == i,
                forall|j: int| 0 <= j < i ==> opt_view(#[trigger] fields@[j]) == field_value(doc@, j),
                forall|j: int|
                    0 <= j < i ==> (#[trigger] fields@[j] matches Some(FieldValue::Number(d))
                        ==> d.wf()),
            decreases FIELD_COUNT - i,
        {
            let f = field(i);
            let v = extract_field(doc.get(f.key), f);
            fields.push(v);
            i = i + 1;
        }
        let r = TelemetryRecord { fields };
        assert(r@ =~= record_of(doc@));
        assert forall|j: int| 0 <= j < r@.len() implies (#[trigger] r@[j] matches Some(
            FieldView::Number(d),
        ) ==> d.wf()) by {
            assert(r@[j] == opt_view(r.fields@[j]));
        }
        r
    }
}

/// Documents that give every member name the same value have the same record:
/// the order of members does not matter, and reading one document twice gives
/// the same record both times.
pub proof fn lemma_record_depends_on_values_only(
    a: Seq<(Seq<char>, RawView)>,
    b: Seq<(Seq<char>, RawView)>,
)
    requires
        forall|k: Seq<char>| #[trigger] lookup(a, k) == lookup(b, k),
    ensures
        record_of(a) == record_of(b),
        record_ok(record_of(a)),
{
    assert(record_of(a) =~= record_of(b)) by {
        assert forall|i: int| 0 <= i < FIELD_COUNT implies field_value(a, i) == field_value(b, i) by {
            assert(lookup(a, field_spec(i).key@) == lookup(b, field_spec(i).key@));
        }
    }
    assert forall|i: int| 0 <= i < FIELD_COUNT implies (#[trigger] record_of(a)[i] matches Some(
        FieldView::Number(d),
    ) ==> d.wf()) by {
        match lookup(a, field_spec(i).key@) {
            Some(RawView::Number(t)) => {
                lemma_parsed_wf(t);
            },
            _ => {},
        }
    }
}

/// Whether `t1` and `t2` are JSON number texts of the same value, such as `100`,
/// `100.0` and `1e2`.
pub open spec fn same_number(t1: Seq<char>, t2: Seq<char>) -> bool {
    &&& number_text(t1) matches Some(n1) && n1.fits()
    &&& number_text(t2) matches Some(n2) && n2.fits()
    &&& same_value(
        number_text(t1)->0.negative,
        number_text(t1)->0.mantissa,
        number_text(t1)->0.exponent(),
        number_text(t2)->0.negative,
        number_text(t2)->0.mantissa,
        number_text(t2)->0.exponent(),
    )
}

/// Replies that differ only in how equal numbers are written (as an integer or
/// with a fraction or an exponent) have the same record.
pub proof fn lemma_number_form_does_not_matter(
    a: Seq<(Seq<char>, RawView)>,
    b: Seq<(Seq<char>, RawView)>,
)
    requires
        forall|k: Seq<char>|
            #[trigger] lookup(a, k) == lookup(b, k) || (lookup(a, k) matches Some(
                RawView::Number(t1),
            ) && lookup(b, k) matches Some(RawView::Number(t2)) && same_number(t1, t2)),
    ensures
        record_of(a) == record_of(b),
{
    assert(record_of(a) =~= record_of(b)) by {
        assert forall|i: int| 0 <= i < FIELD_COUNT implies field_value(a, i) == field_value(b, i) by {
            let key = field_spec(i).key@;
            if lookup(a, key) != lookup(b, key) {
                let t1 = lookup(a, key)->0->Number_0;
                let t2 = lookup(b, key)->0->Number_0;
                lemma_equal_number_texts_parse_alike(t1, t2);
            }
        }
    }
}

} // verus!
