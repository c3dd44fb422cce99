//! Aggregation of verdicts into the consolidated report: the full verdict
//! list, a detailed section for every failing verdict, a summary count, and
//! the pass/fail outcome that drives the process exit status.
use vstd::prelude::*;

use crate::text;
use crate::text::spec_dec;
use crate::verdict::{
    lemma_outcome_verdict_valid, spec_outcome_valid, spec_outcome_verdict, InvocationOutcome,
    VerdictModel, WatcherResult,
};

verus! {

/// How many verdicts are valid.
pub open spec fn spec_count_valid(rs: Seq<VerdictModel>) -> int
    decreases rs.len(),
{
    if rs.len() == 0 {
        0
    } else {
        spec_count_valid(rs.drop_last()) + if rs.last().is_valid {
            1int
        } else {
            0int
        }
    }
}

/// Aggregation law: the passed count never exceeds the number of verdicts,
/// every verdict is valid exactly when the passed count is the total, and
/// the failed count (total minus passed) is nonzero exactly when some
/// verdict is invalid.
pub proof fn lemma_aggregation(rs: Seq<VerdictModel>)
    ensures
        0 <= spec_count_valid(rs) <= rs.len(),
        (spec_count_valid(rs) == rs.len()) <==> (forall|i: int|
            0 <= i < rs.len() ==> (#[trigger] rs[i]).is_valid),
        (rs.len() - spec_count_valid(rs) > 0) <==> (exists|i: int|
            0 <= i < rs.len() && !(#[trigger] rs[i]).is_valid),
    decreases rs.len(),
{
    if rs.len() > 0 {
        lemma_aggregation(rs.drop_last());
        assert(forall|i: int| 0 <= i < rs.len() - 1 ==> rs.drop_last()[i] == rs[i]);
        assert(rs.last() == rs[rs.len() - 1]);
    }
}

/// How many of a run's invocation outcomes yield a valid verdict.
pub open spec fn spec_count_valid_outcomes(os: Seq<InvocationOutcome>) -> int
    decreases os.len(),
{
    if os.len() == 0 {
        0
    } else {
        spec_count_valid_outcomes(os.drop_last()) + if spec_outcome_valid(os.last()) {
            1int
        } else {
            0int
        }
    }
}

/// Aggregation law over a whole run: when each verdict is the one its
/// invocation outcome decides, the passed count is exactly the number of
/// outcomes that succeeded with a verdict object reading `is_valid` true,
/// and every failed invocation or malformed response counts as failed.
pub proof fn lemma_run_counts(
    names: Seq<Seq<char>>,
    locations: Seq<Seq<char>>,
    os: Seq<InvocationOutcome>,
    rs: Seq<VerdictModel>,
)
    requires
        rs.len() == os.len(),
        names.len() == os.len(),
        locations.len() == os.len(),
        forall|i: int|
            0 <= i < os.len() ==> rs[i] == spec_outcome_verdict(
                names[i],
                locations[i],
                #[trigger] os[i],
            ),
    ensures
        spec_count_valid(rs) == spec_count_valid_outcomes(os),
    decreases os.len(),
{
    if os.len() > 0 {
        let n = os.len();
        assert(forall|i: int|
            0 <= i < n - 1 ==> rs.drop_last()[i] == spec_outcome_verdict(
                names.drop_last()[i],
                locations.drop_last()[i],
                #[trigger] os.drop_last()[i],
            ));
        lemma_run_counts(names.drop_last(), locations.drop_last(), os.drop_last(), rs.drop_last());
        lemma_outcome_verdict_valid(names[n - 1], locations[n - 1], os[n - 1]);
        assert(rs.last().is_valid == spec_outcome_valid(os.last()));
    }
}

/// The coloured OK / FAILED word of a verdict.
pub open spec fn spec_status(v: bool) -> Seq<char> {
    if v {
        "\u{1b}[32mOK\u{1b}[0m"@
    } else {
        "\u{1b}[31mFAILED\u{1b}[0m"@
    }
}

/// One line of the verdict list.
pub open spec fn spec_result_line(v: VerdictModel) -> Seq<char> {
    "watcher "@ + v.name + "... "@ + spec_status(v.is_valid) + "\n"@
}

/// The full verdict list, in order.
pub open spec fn spec_result_lines(rs: Seq<VerdictModel>) -> Seq<char>
    decreases rs.len(),
{
    if rs.len() == 0 {
        Seq::empty()
    } else {
        spec_result_lines(rs.drop_last()) + spec_result_line(rs.last())
    }
}

/// The detailed block for one failing verdict.
pub open spec fn spec_failure_block(v: VerdictModel) -> Seq<char> {
    "\n---- "@ + v.name + " ("@ + v.location + ") ----\n\n"@ + (match v.reason {
        Some(r) => r,
        None => "unknown reason"@,
    }) + "\n"@
}

/// The detailed blocks of all failing verdicts, in order.
pub open spec fn spec_failure_blocks(rs: Seq<VerdictModel>) -> Seq<char>
    decreases rs.len(),
{
    if rs.len() == 0 {
        Seq::empty()
    } else {
        spec_failure_blocks(rs.drop_last()) + if rs.last().is_valid {
            Seq::empty()
        } else {
            spec_failure_block(rs.last())
        }
    }
}

/// The closing summary line.
pub open spec fn spec_summary(passed: nat, failed: nat) -> Seq<char> {
    if failed == 0 {
        "\nwatcher-knight result: \u{1b}[32mOK\u{1b}[0m. "@ + spec_dec(passed)
            + " passed; 0 failed\n"@
    } else {
        "\nwatcher-knight result: \u{1b}[31mFAILED\u{1b}[0m. "@ + spec_dec(passed) + " passed; "@
            + spec_dec(failed) + " failed\n"@
    }
}

/// The whole report: verdict list, failure details when there are failures,
/// and the summary.
pub open spec fn spec_report_text(rs: Seq<VerdictModel>) -> Seq<char> {
    let passed = spec_count_valid(rs);
    let failed = rs.len() - passed;
    "\n---- RESULTS ----\n\n"@ + spec_result_lines(rs) + (if failed > 0 {
        "\n\u{1b}[31m---- FAILURES ----\n"@ + spec_failure_blocks(rs) + "\u{1b}[0m"@
    } else {
        Seq::empty()
    }) + spec_summary(passed as nat, failed as nat)
}

/// The consolidated report and its counts.
pub struct Report {
    pub text: String,
    pub passed: usize,
    pub failed: usize,
}

/// Builds the report: the text is exactly `spec_report_text`, the counts
/// partition the verdicts, and the failed count is zero exactly when every
/// verdict is valid.
pub fn report_of(results: &Vec<WatcherResult>) -> (r: Report)
    ensures
        r.passed == spec_count_valid(results.deep_view()),
        r.passed + r.failed == results@.len(),
        r.text@ == spec_report_text(results.deep_view()),
        (r.failed == 0) <==> (forall|i: int|
            0 <= i < results.deep_view().len() ==> (#[trigger] results.deep_view()[i]).is_valid),
{
    let ghost dv = results.deep_view();
    let n: usize = results.len();
    proof {
        assert(dv.len() == n);
        lemma_aggregation(dv);
    }
    let mut passed: usize = 0;
    let mut k: usize = 0;
    proof {
        assert(dv.take(0) =~= Seq::<VerdictModel>::empty());
    }
    while k < n
        invariant
            0 <= k <= n,
            dv == results.deep_view(),
            dv.len() == n,
            n == results@.len(),
            passed == spec_count_valid(dv.take(k as int)),
            passed <= k,
        decreases n - k,
    {
        proof {
            assert(dv[k as int] == results@[k as int].deep_view());
            assert(dv.take(k + 1).drop_last() =~= dv.take(k as int));
            assert(dv.take(k + 1).last() == dv[k as int]);
        }
        if results[k].is_valid {
            passed = passed + 1;
        }
        k = k + 1;
    }
    proof {
        assert(dv.take(n as int) =~= dv);
    }
    let failed: usize = n - passed;

    let mut out = String::new();
    out.append("\n---- RESULTS ----\n\n");
    let mut k2: usize = 0;
    proof {
        assert(dv.take(0) =~= Seq::<VerdictModel>::empty());
        assert(out@ =~= "\n---- RESULTS ----\n\n"@ + spec_result_lines(dv.take(0)));
    }
    while k2 < n
        invariant
            0 <= k2 <= n,
            dv == results.deep_view(),
            dv.len() == n,
            n == results@.len(),
            out@ == "\n---- RESULTS ----\n\n"@ + spec_result_lines(dv.take(k2 as int)),
        decreases n - k2,
    {
        proof {
            assert(dv[k2 as int] == results@[k2 as int].deep_view());
            assert(dv.take(k2 + 1).drop_last() =~= dv.take(k2 as int));
            assert(dv.take(k2 + 1).last() == dv[k2 as int]);
        }
        out.append("watcher ");
        out.append(results[k2].name.as_str());
        out.append("... ");
        if results[k2].is_valid {
            out.append("\u{1b}[32mOK\u{1b}[0m");
        } else {
            out.append("\u{1b}[31mFAILED\u{1b}[0m");
        }
        out.append("\n");
        k2 = k2 + 1;
    }
    proof {
        assert(dv.take(n as int) =~= dv);
    }

    if failed > 0 {
        out.append("\n\u{1b}[31m---- FAILURES ----\n");
        let ghost head = out@;
        let mut k3: usize = 0;
        proof {
            assert(dv.take(0) =~= Seq::<VerdictModel>::empty());
            assert(out@ =~= head + spec_failure_blocks(dv.take(0)));
        }
        while k3 < n
            invariant
                0 <= k3 <= n,
                dv == results.deep_view(),
                dv.len() == n,
                n == results@.len(),
                out@ == head + spec_failure_blocks(dv.take(k3 as int)),
            decreases n - k3,
        {
            proof {
                assert(dv[k3 as int] == results@[k3 as int].deep_view());
                assert(dv.take(k3 + 1).drop_last() =~= dv.take(k3 as int));
                assert(dv.take(k3 + 1).last() == dv[k3 as int]);
            }
            if !results[k3].is_valid {
                out.append("\n---- ");
                out.append(results[k3].name.as_str());
                out.append(" (");
                out.append(results[k3].location.as_str());
                out.append(") ----\n\n");
                match &results[k3].reason {
                    Some(reason) => {
                        out.append(reason.as_str());
                    },
                    None => {
                        out.append("unknown reason");
                    },
                }
                out.append("\n");
            }
            k3 = k3 + 1;
        }
        proof {
            assert(dv.take(n as int) =~= dv);
        }
        out.append("\u{1b}[0m");
    }

    if failed == 0 {
        out.append("\nwatcher-knight result: \u{1b}[32mOK\u{1b}[0m. ");
        let pd = text::usize_to_string(passed);
        out.append(pd.as_str());
        out.append(" passed; 0 failed\n");
    } else {
        out.append("\nwatcher-knight result: \u{1b}[31mFAILED\u{1b}[0m. ");
        let pd = text::usize_to_string(passed);
        out.append(pd.as_str());
        out.append(" passed; ");
        let fd = text::usize_to_string(failed);
        out.append(fd.as_str());
        out.append(" failed\n");
    }
    Report { text: out, passed, failed }
}

/// The process exit status the report calls for: zero exactly when every
/// verdict passed.
pub fn exit_code(r: &Report) -> (c: i32)
    ensures
        c == 0 <==> r.failed == 0,
        c == 0 || c == 1,
{
    if r.failed == 0 {
        0
    } else {
        1
    }
}

} // verus!
