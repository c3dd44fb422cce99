//! One validation task's outcome: extracting the structured verdict object
//! from the judge's output and turning it, or an invocation failure, into a
//! `WatcherResult`.
use vstd::prelude::*;

use crate::text;
use crate::text::{spec_find_char, spec_trim};

verus! {

/// The verdict produced for one annotation: valid or not, with a reason
/// exactly when it is not.
pub struct WatcherResult {
    pub name: String,
    pub location: String,
    pub is_valid: bool,
    pub reason: Option<String>,
}

/// Mathematical image of a `WatcherResult`.
pub struct VerdictModel {
    pub name: Seq<char>,
    pub location: Seq<char>,
    pub is_valid: bool,
    pub reason: Option<Seq<char>>,
}

impl View for WatcherResult {
    type V = VerdictModel;

    open spec fn view(&self) -> VerdictModel {
        VerdictModel {
            name: self.name@,
            location: self.location@,
            is_valid: self.is_valid,
            reason: match self.reason {
                Some(ref r) => Some(r@),
                None => None,
            },
        }
    }
}

impl DeepView for WatcherResult {
    type V = VerdictModel;

    open spec fn deep_view(&self) -> VerdictModel {
        self.view()
    }
}

/// Index (at or past `i`) where brace nesting, currently at `depth`, first
/// returns to zero on a closing brace.
pub open spec fn spec_balance_end(s: Seq<char>, i: int, depth: int) -> Option<int>
    decreases s.len() - i,
{
    if i < 0 || i >= s.len() {
        None
    } else if s[i] == '{' {
        spec_balance_end(s, i + 1, depth + 1)
    } else if s[i] == '}' {
        if depth - 1 == 0 {
            Some(i)
        } else {
            spec_balance_end(s, i + 1, depth - 1)
        }
    } else {
        spec_balance_end(s, i + 1, depth)
    }
}

/// The first balanced `{...}` substring of `s`, scanning left to right and
/// tracking nesting depth.
pub open spec fn spec_extract_json(s: Seq<char>) -> Option<Seq<char>> {
    match spec_find_char(s, '{') {
        None => None,
        Some(st) => match spec_balance_end(s, st, 0) {
            Some(e) => Some(s.subrange(st, e + 1)),
            None => None,
        },
    }
}

/// Finds the first balanced brace-delimited substring of the judge's output.
pub fn extract_json<'a>(s: &'a str) -> (r: Option<&'a str>)
    ensures
        match r {
            Some(j) => spec_extract_json(s@) == Some(j@),
            None => spec_extract_json(s@) is None,
        },
{
    let n: usize = s.unicode_len();
    let st = match text::find_char(s, '{') {
        None => {
            return None;
        },
        Some(p) => p,
    };
    let mut depth: usize = 0;
    let mut i: usize = st;
    while i < n
        invariant
            st <= i <= n,
            n == s@.len(),
            st < n,
            s@[st as int] == '{',
            spec_find_char(s@, '{') == Some(st as int),
            depth <= i - st,
            i == st ==> depth == 0,
            i > st ==> depth >= 1,
            spec_balance_end(s@, st as int, 0) == spec_balance_end(s@, i as int, depth as int),
        decreases n - i,
    {
        let c = s.get_char(i);
        if c == '{' {
            depth = depth + 1;
        } else if c == '}' {
            assert(i > st);
            if depth == 1 {
                proof {
                    assert(spec_balance_end(s@, i as int, 1) == Some(i as int));
                }
                return Some(s.substring_char(st, i + 1));
            }
            depth = depth - 1;
        }
        i = i + 1;
    }
    proof {
        assert(spec_balance_end(s@, n as int, depth as int) is None);
    }
    None
}

/// The two fields a structured verdict object may carry.
pub struct VerdictFields {
    pub is_valid: Option<bool>,
    pub reason: Option<String>,
}

/// Mathematical image of `VerdictFields`.
pub struct VerdictFieldsModel {
    pub is_valid: Option<bool>,
    pub reason: Option<Seq<char>>,
}

impl View for VerdictFields {
    type V = VerdictFieldsModel;

    open spec fn view(&self) -> VerdictFieldsModel {
        VerdictFieldsModel {
            is_valid: self.is_valid,
            reason: match self.reason {
                Some(ref r) => Some(r@),
                None => None,
            },
        }
    }
}

impl DeepView for VerdictFields {
    type V = VerdictFieldsModel;

    open spec fn deep_view(&self) -> VerdictFieldsModel {
        self.view()
    }
}

/// Whether a text parses as a JSON document: serde_json decides, and its
/// answer depends on the text alone.
pub uninterp spec fn json_parses(s: Seq<char>) -> bool;

/// The document's `is_valid` member read as a boolean, where the text parses
/// and its top value is an object carrying one: a function of the text alone.
pub uninterp spec fn json_valid_field(s: Seq<char>) -> Option<bool>;

/// The document's `reason` member read as text, where the text parses and
/// its top value is an object carrying one: a function of the text alone.
pub uninterp spec fn json_reason_field(s: Seq<char>) -> Option<Seq<char>>;

/// Relies on serde_json::from_str and serde_json::Value::get, Value::as_bool
/// and Value::as_str: whether the text parses, and what its `is_valid` and
/// `reason` members hold, depend on the text alone; the names above stand
/// for those three readings. A parse error is reported as `None`; serde_json
/// does not panic on malformed input.
#[verifier::external_body]
fn read_verdict_fields(s: &str) -> (r: Option<VerdictFields>)
    ensures
        r is Some <==> json_parses(s@),
        r matches Some(f) ==> f.is_valid == json_valid_field(s@),
        r matches Some(f) ==> f@.reason == json_reason_field(s@),
{
    let v: serde_json::Value = match serde_json::from_str(s) {
        Ok(v) => v,
        Err(_) => return None,
    };
    let is_valid = match v.get("is_valid") {
        Some(f) => f.as_bool(),
        None => None,
    };
    let reason = match v.get("reason") {
        Some(f) => match f.as_str() { Some(t) => Some(t.to_string()), None => None },
        None => None,
    };
    Some(VerdictFields { is_valid, reason })
}

/// The fields that the judge's output yields: the named serde_json readings
/// of the candidate text, or nothing when it does not parse.
pub open spec fn spec_fields_of(c: Seq<char>) -> Option<VerdictFieldsModel> {
    if json_parses(c) {
        Some(VerdictFieldsModel { is_valid: json_valid_field(c), reason: json_reason_field(c) })
    } else {
        None
    }
}

/// The text handed to the JSON reader: the first balanced brace-delimited
/// substring of the output, or the whole output when none exists.
pub open spec fn spec_verdict_candidate(s: Seq<char>) -> Seq<char> {
    match spec_extract_json(s) {
        Some(j) => j,
        None => s,
    }
}

/// The verdict decided by a judge response: a response with no parseable
/// object is invalid and quotes the raw output; an absent `is_valid` counts
/// as invalid; an invalid verdict without a reason gets the fixed
/// placeholder; a valid verdict carries no reason.
pub open spec fn spec_verdict(
    name: Seq<char>,
    location: Seq<char>,
    raw: Seq<char>,
    fields: Option<VerdictFieldsModel>,
) -> VerdictModel {
    match fields {
        None => VerdictModel {
            name: name,
            location: location,
            is_valid: false,
            reason: Some("malformed response: "@ + raw),
        },
        Some(f) => {
            let valid = f.is_valid == Some(true);
            VerdictModel {
                name: name,
                location: location,
                is_valid: valid,
                reason: if valid {
                    None
                } else {
                    match f.reason {
                        Some(r) => Some(r),
                        None => Some("marked invalid with no reason"@),
                    }
                },
            }
        },
    }
}

/// Whatever fields the judge's output yielded, the verdict they decide.
pub fn verdict_from_fields(
    name: &str,
    location: &str,
    raw: &str,
    fields: Option<VerdictFields>,
) -> (r: WatcherResult)
    ensures
        r@ == spec_verdict(name@, location@, raw@, fields.deep_view()),
{
    match fields {
        None => {
            let mut reason = String::new();
            reason.append("malformed response: ");
            reason.append(raw);
            WatcherResult {
                name: String::from_str(name),
                location: String::from_str(location),
                is_valid: false,
                reason: Some(reason),
            }
        },
        Some(f) => {
            let valid = match f.is_valid {
                Some(true) => true,
                _ => false,
            };
            let reason: Option<String> = if valid {
                None
            } else {
                match f.reason {
                    Some(r) => Some(r),
                    None => Some(String::from_str("marked invalid with no reason")),
                }
            };
            WatcherResult {
                name: String::from_str(name),
                location: String::from_str(location),
                is_valid: valid,
                reason,
            }
        },
    }
}

/// Every verdict keeps the annotation's name and location, and carries a
/// reason exactly when it is invalid.
pub proof fn lemma_verdict_shape(
    name: Seq<char>,
    location: Seq<char>,
    raw: Seq<char>,
    fields: Option<VerdictFieldsModel>,
)
    ensures
        spec_verdict(name, location, raw, fields).name == name,
        spec_verdict(name, location, raw, fields).location == location,
        !spec_verdict(name, location, raw, fields).is_valid <==> spec_verdict(
            name,
            location,
            raw,
            fields,
        ).reason is Some,
{
}

/// Parses the judge's raw output into a verdict. The result is pinned by
/// `spec_verdict` over `spec_fields_of` of the candidate text: the first
/// balanced brace-delimited substring, or the whole output when none exists.
pub fn parse_response(name: &str, location: &str, s: &str) -> (r: WatcherResult)
    ensures
        r@ == spec_verdict(name@, location@, s@, spec_fields_of(spec_verdict_candidate(s@))),
        r@.name == name@,
        r@.location == location@,
        !r@.is_valid <==> r@.reason is Some,
{
    let candidate = match extract_json(s) {
        Some(j) => j,
        None => s,
    };
    proof {
        assert(candidate@ == spec_verdict_candidate(s@));
    }
    let fields = read_verdict_fields(candidate);
    let ghost fv = fields.deep_view();
    proof {
        assert(fv == spec_fields_of(candidate@));
    }
    let r = verdict_from_fields(name, location, s, fields);
    proof {
        lemma_verdict_shape(name@, location@, s@, fv);
    }
    r
}

/// How one attempt to consult the judge ended, as the driver observed it.
pub enum InvocationOutcome {
    /// The judge process could not be started or spoken to; the text
    /// describes the failure.
    LaunchFailed(String),
    /// The process ran to completion: whether it succeeded, its status
    /// rendered as text, and what it wrote to its output channel.
    Exited { success: bool, status: String, output: String },
}

/// The verdict that one invocation outcome decides: a process failure is a
/// failing verdict naming the failure, a non-zero exit is a failing verdict
/// naming the status, and a successful exit is judged by the serde_json
/// reading of the trimmed output.
pub open spec fn spec_outcome_verdict(
    name: Seq<char>,
    location: Seq<char>,
    o: InvocationOutcome,
) -> VerdictModel {
    match o {
        InvocationOutcome::LaunchFailed(e) => VerdictModel {
            name: name,
            location: location,
            is_valid: false,
            reason: Some("failed to invoke the judge: "@ + e@),
        },
        InvocationOutcome::Exited { success, status, output } => {
            if !success {
                VerdictModel {
                    name: name,
                    location: location,
                    is_valid: false,
                    reason: Some("judge process exited with "@ + status@),
                }
            } else {
                spec_verdict(
                    name,
                    location,
                    spec_trim(output@),
                    spec_fields_of(spec_verdict_candidate(spec_trim(output@))),
                )
            }
        },
    }
}

/// An invocation outcome counts as valid when the process exited with
/// success and its output reads as a verdict object carrying `is_valid`
/// true; every other outcome counts as failed.
pub open spec fn spec_outcome_valid(o: InvocationOutcome) -> bool {
    match o {
        InvocationOutcome::LaunchFailed(_) => false,
        InvocationOutcome::Exited { success, output, .. } => success && (spec_fields_of(
            spec_verdict_candidate(spec_trim(output@)),
        ) matches Some(f) && f.is_valid == Some(true)),
    }
}

/// An outcome's verdict is valid exactly when the outcome is: a failed
/// invocation or a malformed response always yields a failing verdict.
pub proof fn lemma_outcome_verdict_valid(name: Seq<char>, location: Seq<char>, o: InvocationOutcome)
    ensures
        spec_outcome_verdict(name, location, o).is_valid == spec_outcome_valid(o),
{
}

/// The verdict for one annotation given how the invocation went: exactly
/// the one `spec_outcome_verdict` decides.
pub fn verdict_of_invocation(name: &str, location: &str, outcome: &InvocationOutcome) -> (r:
    WatcherResult)
    ensures
        r@ == spec_outcome_verdict(name@, location@, *outcome),
        r@.name == name@,
        r@.location == location@,
        !r@.is_valid <==> r@.reason is Some,
{
    match outcome {
        InvocationOutcome::LaunchFailed(e) => {
            let mut reason = String::new();
            reason.append("failed to invoke the judge: ");
            reason.append(e.as_str());
            WatcherResult {
                name: String::from_str(name),
                location: String::from_str(location),
                is_valid: false,
                reason: Some(reason),
            }
        },
        InvocationOutcome::Exited { success, status, output } => {
            if !*success {
                let mut reason = String::new();
                reason.append("judge process exited with ");
                reason.append(status.as_str());
                WatcherResult {
                    name: String::from_str(name),
                    location: String::from_str(location),
                    is_valid: false,
                    reason: Some(reason),
                }
            } else {
                let text = text::trim(output.as_str());
                parse_response(name, location, text)
            }
        },
    }
}

} // verus!
