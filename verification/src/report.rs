//! Summaries of the result files a run leaves: whether the flow passed, how
//! many steps it had, their total time, and what failed.

use vstd::prelude::*;
use vstd::string::StringExecFns;
use crate::model::opt_text;
use crate::text::{append_chars, chars_of, decimal, decimal_chars, has_suffix, push_char, starts_with, string_from};

verus! {

#[verifier::external_type_specification]
#[verifier::external_body]
pub struct ExJsonValue(serde_json::Value);

/// A JSON value. Numbers are kept as far as the summary reads them: a
/// non-negative integer, or some other number.
#[derive(Debug)]
pub enum JsonValue {
    Null,
    Bool(bool),
    Int(u64),
    OtherNumber,
    Str(String),
    Array(Vec<JsonValue>),
    /// Members in key order; keys are unique.
    Object(Vec<(String, JsonValue)>),
}

/// The name for the value serde_json reads from a text (`None` where it
/// reports an error).
pub uninterp spec fn json_document(text: Seq<char>) -> Option<JsonValue>;

/// Carries a serde_json value over into a `JsonValue`, variant by variant.
#[verifier::external_body]
fn json_node(v: &serde_json::Value) -> JsonValue {
    match v {
        serde_json::Value::Null => JsonValue::Null,
        serde_json::Value::Bool(b) => JsonValue::Bool(*b),
        serde_json::Value::Number(n) => n.as_u64().map_or(JsonValue::OtherNumber, JsonValue::Int),
        serde_json::Value::String(s) => JsonValue::Str(s.clone()),
        serde_json::Value::Array(xs) => JsonValue::Array(xs.iter().map(json_node).collect()),
        serde_json::Value::Object(m) => JsonValue::Object(
            m.iter().map(|(k, x)| (k.clone(), json_node(x))).collect(),
        ),
    }
}

/// The name for the message of the error serde_json reports when a text is
/// not one JSON value (its `Display`, with the place of the fault).
pub uninterp spec fn json_error_message(text: Seq<char>) -> Seq<char>;

/// `serde_json::from_str::<serde_json::Value>`: reads one JSON value, or
/// gives the `Display` text of the error. Value and message depend on the
/// text alone, so they are named; the contract says no more of them.
#[verifier::external_body]
fn parse_json(text: &str) -> (r: Result<JsonValue, String>)
    ensures
        r is Ok <==> json_document(text@) is Some,
        r matches Ok(v) ==> json_document(text@) == Some(v),
        r matches Err(m) ==> m@ == json_error_message(text@),
{
    serde_json::from_str::<serde_json::Value>(text).map(|v| json_node(&v)).map_err(|e| e.to_string())
}

/// Reads a result file's text: its JSON value, or serde_json's message.
pub fn load_json(text: &str) -> (r: Result<JsonValue, String>)
    ensures
        match json_document(text@) {
            Some(v) => r == Ok::<JsonValue, String>(v),
            None => r matches Err(m) && m@ == json_error_message(text@),
        },
{
    parse_json(text)
}

/// The value of the first member named `key`.
pub open spec fn member_lookup(members: Seq<(String, JsonValue)>, key: Seq<char>) -> Option<
    JsonValue,
>
    decreases members.len(),
{
    if members.len() == 0 {
        None
    } else if members[0].0@ == key {
        Some(members[0].1)
    } else {
        member_lookup(members.drop_first(), key)
    }
}

/// `value[key]`: the member of an object; nothing for a missing member or a
/// value that is not an object.
pub open spec fn json_field(v: JsonValue, key: Seq<char>) -> Option<JsonValue> {
    match v {
        JsonValue::Object(members) => member_lookup(members@, key),
        _ => None,
    }
}

pub open spec fn json_str(o: Option<JsonValue>) -> Option<Seq<char>> {
    match o {
        Some(JsonValue::Str(s)) => Some(s@),
        _ => None,
    }
}

pub open spec fn json_bool(o: Option<JsonValue>) -> Option<bool> {
    match o {
        Some(JsonValue::Bool(b)) => Some(b),
        _ => None,
    }
}

pub open spec fn json_u64(o: Option<JsonValue>) -> Option<u64> {
    match o {
        Some(JsonValue::Int(n)) => Some(n),
        _ => None,
    }
}

pub open spec fn json_array(o: Option<JsonValue>) -> Option<Seq<JsonValue>> {
    match o {
        Some(JsonValue::Array(xs)) => Some(xs@),
        _ => None,
    }
}

impl JsonValue {
    /// `value[key]`.
    pub fn field(&self, key: &str) -> (r: Option<&JsonValue>)
        ensures
            match r {
                Some(v) => json_field(*self, key@) == Some(*v),
                None => json_field(*self, key@) is None,
            },
    {
        match self {
            JsonValue::Object(members) => {
                let k = chars_of(key);
                let mut i: usize = 0;
                assert(members@.subrange(0, members.len() as int) =~= members@);
                while i < members.len()
                    invariant
                        i <= members.len(),
                        k@ == key@,
                        *self == JsonValue::Object(*members),
                        member_lookup(members@, key@) == member_lookup(
                            members@.subrange(i as int, members.len() as int),
                            key@,
                        ),
                    decreases members.len() - i,
                {
                    let ghost rest = members@.subrange(i as int, members.len() as int);
                    assert(rest[0] == members@[i as int]);
                    assert(rest.drop_first() =~= members@.subrange(i + 1, members.len() as int));
                    let cs = chars_of(members[i].0.as_str());
                    if cs.len() == k.len() && starts_with(&cs, &k) {
                        assert(cs@ =~= k@);
                        return Some(&members[i].1);
                    }
                    assert(cs@ != k@) by {
                        if cs@ == k@ {
                            assert(cs@.subrange(0, k@.len() as int) =~= cs@);
                        }
                    }
                    i += 1;
                }
                None
            },
            _ => None,
        }
    }
}

fn field_str<'a>(v: &'a JsonValue, key: &str) -> (r: Option<&'a String>)
    ensures
        match r {
            Some(s) => json_str(json_field(*v, key@)) == Some(s@),
            None => json_str(json_field(*v, key@)) is None,
        },
{
    match v.field(key) {
        Some(JsonValue::Str(s)) => Some(s),
        _ => None,
    }
}

/// What the report shows of one result file.
#[derive(Debug)]
pub struct FlowSummary {
    pub passed: bool,
    pub steps: usize,
    pub total_ms: u64,
    /// For a failed flow, each failed step's command and message.
    pub failures: Vec<(String, String)>,
}

/// The sum of the steps' `duration_ms` (a missing one counts 0), capped at
/// the largest `u64`.
pub open spec fn total_duration(steps: Seq<JsonValue>) -> u64
    decreases steps.len(),
{
    if steps.len() == 0 {
        0
    } else {
        let before = total_duration(steps.drop_last());
        let d = match json_u64(json_field(steps.last(), "duration_ms"@)) {
            Some(n) => n,
            None => 0,
        };
        if before + d > u64::MAX {
            u64::MAX
        } else {
            (before + d) as u64
        }
    }
}

/// The failed steps, each as its command (`?` when missing) and message
/// (`unknown` when missing).
pub open spec fn failed_steps(steps: Seq<JsonValue>) -> Seq<(Seq<char>, Seq<char>)>
    decreases steps.len(),
{
    if steps.len() == 0 {
        Seq::empty()
    } else {
        let before = failed_steps(steps.drop_last());
        let s = steps.last();
        if json_str(json_field(s, "status"@)) == Some("FAILED"@) {
            before.push(
                (
                    match json_str(json_field(s, "command"@)) {
                        Some(c) => c,
                        None => "?"@,
                    },
                    match json_str(json_field(s, "failure_message"@)) {
                        Some(m) => m,
                        None => "unknown"@,
                    },
                ),
            )
        } else {
            before
        }
    }
}

/// Whether the result says the flow passed (a missing flag counts as not).
pub open spec fn summary_passed(v: JsonValue) -> bool {
    match json_bool(json_field(v, "passed"@)) {
        Some(b) => b,
        None => false,
    }
}

/// The steps of the result, none when there is no step array.
pub open spec fn summary_steps(v: JsonValue) -> Seq<JsonValue> {
    match json_array(json_field(v, "steps"@)) {
        Some(xs) => xs,
        None => Seq::empty(),
    }
}

/// Summarizes a result value.
pub fn summarize(result: &JsonValue) -> (r: FlowSummary)
    ensures
        r.passed == summary_passed(*result),
        r.steps == summary_steps(*result).len(),
        r.total_ms == total_duration(summary_steps(*result)),
        r.failures@.map_values(|f: (String, String)| (f.0@, f.1@)) == if summary_passed(*result) {
            Seq::empty()
        } else {
            failed_steps(summary_steps(*result))
        },
{
    let passed = match result.field("passed") {
        Some(JsonValue::Bool(b)) => *b,
        _ => false,
    };
    let empty: Vec<JsonValue> = Vec::new();
    let steps: &Vec<JsonValue> = match result.field("steps") {
        Some(JsonValue::Array(xs)) => xs,
        _ => &empty,
    };
    let ghost all = summary_steps(*result);
    assert(steps@ == all);
    let mut total: u64 = 0;
    let mut failures: Vec<(String, String)> = Vec::new();
    let mut i: usize = 0;
    while i < steps.len()
        invariant
            i <= steps.len(),
            steps@ == all,
            total == total_duration(all.take(i as int)),
            failures@.map_values(|f: (String, String)| (f.0@, f.1@)) == failed_steps(
                all.take(i as int),
            ),
        decreases steps.len() - i,
    {
        let s = &steps[i];
        let d = match s.field("duration_ms") {
            Some(JsonValue::Int(n)) => *n,
            _ => 0,
        };
        total = total.saturating_add(d);
        let ghost before = failures@.map_values(|f: (String, String)| (f.0@, f.1@));
        let failed = match field_str(s, "status") {
            Some(st) => crate::text::same_text(st.as_str(), "FAILED"),
            None => false,
        };
        if failed {
            let command = match field_str(s, "command") {
                Some(c) => c.clone(),
                None => string_from("?"),
            };
            let message = match field_str(s, "failure_message") {
                Some(m) => m.clone(),
                None => string_from("unknown"),
            };
            failures.push((command, message));
        }
        proof {
            let t = all.take(i + 1);
            assert(t.drop_last() =~= all.take(i as int));
            assert(t.last() == all[i as int]);
            if failed {
                assert(failures@.map_values(|f: (String, String)| (f.0@, f.1@)) =~= before.push(
                    (failures@.last().0@, failures@.last().1@),
                ));
            } else {
                assert(failures@.map_values(|f: (String, String)| (f.0@, f.1@)) =~= before);
            }
        }
        i += 1;
    }
    assert(all.take(steps.len() as int) =~= all);
    if passed {
        failures = Vec::new();
        assert(failures@.map_values(|f: (String, String)| (f.0@, f.1@)) =~= Seq::<
            (Seq<char>, Seq<char>),
        >::empty());
    }
    FlowSummary { passed, steps: steps.len(), total_ms: total, failures }
}

// ----------------------------------------------------------------------------
// The report table
/// `n` spaces.
pub open spec fn spaces(n: nat) -> Seq<char> {
    Seq::new(n, |i: int| ' ')
}

/// Left-aligned in a field of `width` characters (`{:<width}`).
pub open spec fn align_left(s: Seq<char>, width: nat) -> Seq<char> {
    if s.len() >= width {
        s
    } else {
        s + spaces((width - s.len()) as nat)
    }
}

/// Right-aligned in a field of `width` characters (`{:>width}`).
pub open spec fn align_right(s: Seq<char>, width: nat) -> Seq<char> {
    if s.len() >= width {
        s
    } else {
        spaces((width - s.len()) as nat) + s
    }
}

fn push_spaces(out: &mut String, n: usize)
    ensures
        final(out)@ == old(out)@ + spaces(n as nat),
{
    let mut i: usize = 0;
    while i < n
        invariant
            i <= n,
            out@ == old(out)@ + spaces(i as nat),
        decreases n - i,
    {
        push_char(out, ' ');
        i += 1;
        assert(out@ =~= old(out)@ + spaces(i as nat));
    }
}

fn append_left(out: &mut String, s: &Vec<char>, width: usize)
    ensures
        final(out)@ == old(out)@ + align_left(s@, width as nat),
{
    append_chars(out, s);
    if s.len() < width {
        push_spaces(out, width - s.len());
    }
    assert(out@ =~= old(out)@ + align_left(s@, width as nat));
}

fn append_right(out: &mut String, s: &Vec<char>, width: usize)
    ensures
        final(out)@ == old(out)@ + align_right(s@, width as nat),
{
    if s.len() < width {
        push_spaces(out, width - s.len());
    }
    append_chars(out, s);
    assert(out@ =~= old(out)@ + align_right(s@, width as nat));
}

/// The table's heading.
pub open spec fn report_heading() -> Seq<char> {
    align_left("Flow"@, 30) + " "@ + align_right("Steps"@, 6) + " "@ + align_right("Total"@, 8)
        + " Status"@
}

pub fn report_header() -> (r: String)
    ensures
        r@ == report_heading(),
{
    let mut out = String::new();
    append_left(&mut out, &chars_of("Flow"), 30);
    out.append(" ");
    append_right(&mut out, &chars_of("Steps"), 6);
    out.append(" ");
    append_right(&mut out, &chars_of("Total"), 8);
    out.append(" Status");
    out
}

/// The rule under the heading: sixty box-drawing dashes.
pub fn report_rule() -> (r: String)
    ensures
        r@ == Seq::new(60, |i: int| '\u{2500}'),
{
    let mut out = String::new();
    let mut i: usize = 0;
    while i < 60
        invariant
            i <= 60,
            out@ == Seq::new(i as nat, |k: int| '\u{2500}'),
        decreases 60 - i,
    {
        push_char(&mut out, '\u{2500}');
        i += 1;
        assert(out@ =~= Seq::new(i as nat, |k: int| '\u{2500}'));
    }
    out
}

/// A flow's row: its name, its number of steps, their total time and its
/// status.
pub open spec fn report_line(name: Seq<char>, passed: bool, steps: nat, total_ms: nat) -> Seq<char> {
    align_left(name, 30) + " "@ + align_right(decimal(steps), 6) + " "@ + align_right(
        decimal(total_ms),
        7,
    ) + "ms "@ + if passed {
        "PASSED"@
    } else {
        "FAILED"@
    }
}

/// A row's status word: a row ends with `PASSED` exactly when its flow
/// passed, and with `FAILED` exactly when it did not, so the word tells
/// which.
pub proof fn lemma_row_status(name: Seq<char>, passed: bool, steps: nat, total_ms: nat)
    ensures
        has_suffix(report_line(name, passed, steps, total_ms), "PASSED"@) <==> passed,
        has_suffix(report_line(name, passed, steps, total_ms), "FAILED"@) <==> !passed,
{
    reveal_strlit("PASSED");
    reveal_strlit("FAILED");
    let r = report_line(name, passed, steps, total_ms);
    let head = align_left(name, 30) + " "@ + align_right(decimal(steps), 6) + " "@ + align_right(
        decimal(total_ms),
        7,
    ) + "ms "@;
    let word: Seq<char> = if passed {
        "PASSED"@
    } else {
        "FAILED"@
    };
    assert(r == head + word);
    assert(r.subrange(r.len() - 6, r.len() as int) =~= word);
    assert("PASSED"@[0] != "FAILED"@[0]);
}

pub fn report_row(name: &str, summary: &FlowSummary) -> (r: String)
    ensures
        r@ == report_line(name@, summary.passed, summary.steps as nat, summary.total_ms as nat),
{
    let mut out = String::new();
    append_left(&mut out, &chars_of(name), 30);
    out.append(" ");
    append_right(&mut out, &decimal_chars(summary.steps as u64), 6);
    out.append(" ");
    append_right(&mut out, &decimal_chars(summary.total_ms), 7);
    out.append("ms ");
    if summary.passed {
        out.append("PASSED");
    } else {
        out.append("FAILED");
    }
    out
}

/// The line under a failed flow's row for one of its failed steps.
pub fn failure_row(command: &str, message: &str) -> (r: String)
    ensures
        r@ == "    \u{2717} "@ + command@ + ": "@ + message@,
{
    let mut out = string_from("    \u{2717} ");
    out.append(command);
    out.append(": ");
    out.append(message);
    out
}

/// Whether a report succeeds: it found result files, and every one that
/// could be read says its flow passed.
pub fn report_passed(found: usize, passed: &Vec<bool>) -> (r: bool)
    ensures
        r == (found > 0 && forall|i: int| 0 <= i < passed@.len() ==> passed@[i]),
{
    if found == 0 {
        return false;
    }
    let mut i: usize = 0;
    while i < passed.len()
        invariant
            i <= passed.len(),
            forall|j: int| 0 <= j < i ==> passed@[j],
        decreases passed.len() - i,
    {
        if !passed[i] {
            return false;
        }
        i += 1;
    }
    true
}

/// Whether the result file with this text (`None` where it could not be
/// read) counts against the report: it does when it is one JSON value that
/// does not say its flow passed.
pub open spec fn report_file_failed(content: Option<Seq<char>>) -> bool {
    match content {
        Some(t) => match json_document(t) {
            Some(v) => !summary_passed(v),
            None => false,
        },
        None => false,
    }
}

/// The verdict of a report over the texts of its result files, in order
/// (`None` for a file that could not be read): it succeeds when there is at
/// least one file and no file that was read and parsed says its flow did
/// not pass; files that could not be read or parsed are passed over.
pub fn report_verdict(contents: &Vec<Option<String>>) -> (r: bool)
    ensures
        r == (contents@.len() > 0 && forall|i: int|
            0 <= i < contents@.len() ==> !report_file_failed(
                #[trigger] opt_text(contents@[i]),
            )),
{
    if contents.len() == 0 {
        return false;
    }
    let mut i: usize = 0;
    while i < contents.len()
        invariant
            i <= contents.len(),
            forall|j: int| 0 <= j < i ==> !report_file_failed(#[trigger] opt_text(contents@[j])),
        decreases contents.len() - i,
    {
        if let Some(text) = &contents[i] {
            if let Ok(v) = load_json(text.as_str()) {
                if !summarize(&v).passed {
                    assert(opt_text(contents@[i as int]) == Some(text@));
                    assert(report_file_failed(opt_text(contents@[i as int])));
                    return false;
                }
            }
        }
        i += 1;
    }
    true
}

} // verus!
