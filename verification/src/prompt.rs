//! The validation request sent to the judge for one annotation: a template
//! filled with the annotation's name, location and instruction, followed by
//! the diff under review.
use vstd::prelude::*;

use crate::marker::{Marker, MarkerModel};
use crate::text;
use crate::text::spec_dec;

verus! {

/// The fixed text that opens the request.
pub open spec fn spec_prompt_head() -> Seq<char> {
    "You are validating a code invariant against a diff.\n\nInvariant name: "@
}

/// The fixed text between the instruction and the diff: what the judge must
/// check, and the demand that it answer with only a structured verdict
/// object.
pub open spec fn spec_prompt_rules() -> Seq<char> {
    "\n\nCheck whether the current state of the code satisfies this invariant.\nUse the diff to understand what changed, then ALWAYS use Read/Grep/Glob to verify the invariant against the actual codebase. You must confirm that any files or code referenced by the invariant actually exist. If a file referenced by the invariant does not exist, the invariant is violated.\n\nRespond with ONLY a JSON object, no other text:\n- {\"is_valid\": true} if the invariant holds\n- {\"is_valid\": false, \"reason\": \"...\"} if it is violated\n\nIMPORTANT: Your reason will be shown directly to the end user. Write it as a clear, actionable description of the problem. Do NOT reference diffs, HEAD, commits, or the validation process itself. Just describe what is wrong with the code.\n\n## Diff (HEAD -> working tree)\n```diff\n"@
}

/// The whole request for one annotation: the template filled with its name,
/// location and instruction, then the diff fenced as a code block (given a
/// final newline where it lacks one).
pub open spec fn spec_watcher_prompt(m: MarkerModel, diff: Seq<char>) -> Seq<char> {
    spec_prompt_head() + m.name + "\nFile: "@ + m.rel_path + " (line "@ + spec_dec(
        m.line as nat,
    ) + ")\nInstruction: "@ + m.instruction + spec_prompt_rules() + diff + (if diff.len() > 0
        && diff[diff.len() - 1] == '\n' {
        Seq::<char>::empty()
    } else {
        "\n"@
    }) + "```\n"@
}

/// Renders the validation request for one annotation.
pub fn build_watcher_prompt(marker: &Marker, diff: &str) -> (r: String)
    ensures
        r@ == spec_watcher_prompt(marker@, diff@),
{
    let mut out = String::new();
    out.append(
        "You are validating a code invariant against a diff.\n\nInvariant name: ",
    );
    out.append(marker.name.as_str());
    out.append("\nFile: ");
    out.append(marker.rel_path.as_str());
    out.append(" (line ");
    let line_text = text::usize_to_string(marker.line);
    out.append(line_text.as_str());
    out.append(")\nInstruction: ");
    out.append(marker.instruction.as_str());
    out.append(
        "\n\nCheck whether the current state of the code satisfies this invariant.\nUse the diff to understand what changed, then ALWAYS use Read/Grep/Glob to verify the invariant against the actual codebase. You must confirm that any files or code referenced by the invariant actually exist. If a file referenced by the invariant does not exist, the invariant is violated.\n\nRespond with ONLY a JSON object, no other text:\n- {\"is_valid\": true} if the invariant holds\n- {\"is_valid\": false, \"reason\": \"...\"} if it is violated\n\nIMPORTANT: Your reason will be shown directly to the end user. Write it as a clear, actionable description of the problem. Do NOT reference diffs, HEAD, commits, or the validation process itself. Just describe what is wrong with the code.\n\n## Diff (HEAD -> working tree)\n```diff\n",
    );
    out.append(diff);
    let dn: usize = diff.unicode_len();
    if !(dn > 0 && diff.get_char(dn - 1) == '\n') {
        out.append("\n");
    }
    out.append("```\n");
    out
}

/// The fixed text that opens the combined request covering every annotation
/// at once: one delegate is to judge each invariant against the diff and
/// answer with a structured verdict object per invariant.
pub open spec fn spec_combined_head() -> Seq<char> {
    "The following watcher-knight invariants were found in this repository. The diff below shows the changes between the reference commit and the current working tree.\n\nYour task: for each invariant, dispatch one delegate to validate it **inductively against the diff**. Each delegate should:\n1. Assume the invariant held at the reference commit (even if it can't verify this).\n2. Examine the diff to determine whether the changes could have broken the invariant.\n3. If needed, use Read/Grep/Glob to inspect the current file contents for more context.\n4. Return one of the following JSON responses:\n\n- { \"type\": \"response\", \"is_valid\": true }\n  The invariant still holds after the changes.\n\n- { \"type\": \"response\", \"is_valid\": false, \"reason\": \"...\" }\n  The changes broke the invariant. Explain why.\n\n- { \"type\": \"malformed\", \"reason\": \"...\" }\n  The invariant itself is no longer applicable. This is NOT for invariant violations; it is only for cases where the watcher-knight marker needs to be rewritten or removed.\n\nIf the diff does not touch anything relevant to an invariant, it is valid.\n\nAfter all delegates have returned, check their results. If every single response has { \"type\": \"response\", \"is_valid\": true }, output ONLY the exact text: All checks pass!\nOtherwise, list each failing or malformed invariant with its details.\n"@
}

/// The block describing one invariant, numbered `idx` (1-based).
pub open spec fn spec_invariant_block(m: MarkerModel, idx: nat) -> Seq<char> {
    "\n---\nInvariant "@ + spec_dec(idx) + "\nFile: "@ + m.rel_path + " (line "@ + spec_dec(
        m.line as nat,
    ) + ")\nInstruction: "@ + m.instruction + "\n"@
}

/// The blocks for all annotations, numbered in order from one.
pub open spec fn spec_invariant_blocks(ms: Seq<MarkerModel>) -> Seq<char>
    decreases ms.len(),
{
    if ms.len() == 0 {
        Seq::empty()
    } else {
        spec_invariant_blocks(ms.drop_last()) + spec_invariant_block(ms.last(), ms.len())
    }
}

/// The whole combined request: the fixed head, the fenced diff, and one
/// numbered block per annotation.
pub open spec fn spec_combined_prompt(ms: Seq<MarkerModel>, diff: Seq<char>) -> Seq<char> {
    spec_combined_head() + "\n## Diff (reference commit -> working tree)\n```diff\n"@ + diff + (
    if diff.len() > 0 && diff[diff.len() - 1] == '\n' {
        Seq::<char>::empty()
    } else {
        "\n"@
    }) + "```\n\n## Invariants\n"@ + spec_invariant_blocks(ms) + "---\n"@
}

/// Renders the combined request covering every annotation at once.
pub fn build_prompt(markers: &Vec<Marker>, diff: &str) -> (r: String)
    ensures
        r@ == spec_combined_prompt(markers.deep_view(), diff@),
{
    let ghost dv = markers.deep_view();
    let mut out = String::new();
    out.append(
        "The following watcher-knight invariants were found in this repository. The diff below shows the changes between the reference commit and the current working tree.\n\nYour task: for each invariant, dispatch one delegate to validate it **inductively against the diff**. Each delegate should:\n1. Assume the invariant held at the reference commit (even if it can't verify this).\n2. Examine the diff to determine whether the changes could have broken the invariant.\n3. If needed, use Read/Grep/Glob to inspect the current file contents for more context.\n4. Return one of the following JSON responses:\n\n- { \"type\": \"response\", \"is_valid\": true }\n  The invariant still holds after the changes.\n\n- { \"type\": \"response\", \"is_valid\": false, \"reason\": \"...\" }\n  The changes broke the invariant. Explain why.\n\n- { \"type\": \"malformed\", \"reason\": \"...\" }\n  The invariant itself is no longer applicable. This is NOT for invariant violations; it is only for cases where the watcher-knight marker needs to be rewritten or removed.\n\nIf the diff does not touch anything relevant to an invariant, it is valid.\n\nAfter all delegates have returned, check their results. If every single response has { \"type\": \"response\", \"is_valid\": true }, output ONLY the exact text: All checks pass!\nOtherwise, list each failing or malformed invariant with its details.\n",
    );
    out.append("\n## Diff (reference commit -> working tree)\n```diff\n");
    out.append(diff);
    let dn: usize = diff.unicode_len();
    if !(dn > 0 && diff.get_char(dn - 1) == '\n') {
        out.append("\n");
    }
    out.append("```\n\n## Invariants\n");
    let ghost head = out@;
    let n: usize = markers.len();
    let mut k: usize = 0;
    proof {
        assert(dv.take(0) =~= Seq::<MarkerModel>::empty());
        assert(out@ =~= head + spec_invariant_blocks(dv.take(0)));
    }
    while k < n
        invariant
            0 <= k <= n,
            dv == markers.deep_view(),
            dv.len() == n,
            n == markers@.len(),
            out@ == head + spec_invariant_blocks(dv.take(k as int)),
        decreases n - k,
    {
        proof {
            assert(dv[k as int] == markers@[k as int].deep_view());
            assert(dv.take(k + 1).drop_last() =~= dv.take(k as int));
            assert(dv.take(k + 1).last() == dv[k as int]);
        }
        out.append("\n---\nInvariant ");
        let num = text::usize_to_string(k + 1);
        out.append(num.as_str());
        out.append("\nFile: ");
        out.append(markers[k].rel_path.as_str());
        out.append(" (line ");
        let ln = text::usize_to_string(markers[k].line);
        out.append(ln.as_str());
        out.append(")\nInstruction: ");
        out.append(markers[k].instruction.as_str());
        out.append("\n");
        k = k + 1;
    }
    proof {
        assert(dv.take(n as int) =~= dv);
    }
    out.append("---\n");
    out
}

} // verus!
