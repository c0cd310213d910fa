//! Formatting of error reports.
//!
//! A failed call is reported as one line naming the method and the error,
//! followed by one line per further source in the error's cause chain.  The
//! host that owns the log sink prints the lines.

use vstd::prelude::*;
use vstd::string::StringExecFns;

verus! {

/// The report lines for a failed call: `sources` holds the texts of the
/// error and of its cause chain, outermost first, and must hold at least the
/// error itself.
pub fn log_error(method_name: &str, sources: &Vec<String>) -> (lines: Vec<String>)
    requires
        1 <= sources.len(),
    ensures
        lines.len() == sources.len(),
        lines[0]@ == method_name@ + "() failed: "@ + sources[0]@,
        forall|i: int| 1 <= i < lines.len() ==> lines[i]@ == "  Caused by: "@ + sources[i]@,
{
    let mut lines: Vec<String> = Vec::new();
    let mut first = method_name.to_owned();
    first.append("() failed: ");
    first.append(sources[0].as_str());
    lines.push(first);
    let mut idx: usize = 1;
    while idx < sources.len()
        invariant
            1 <= idx <= sources.len(),
            lines.len() == idx,
            lines[0]@ == method_name@ + "() failed: "@ + sources[0]@,
            forall|i: int| 1 <= i < idx ==> lines[i]@ == "  Caused by: "@ + sources[i]@,
        decreases sources.len() - idx,
    {
        let mut line = String::new();
        line.append("  Caused by: ");
        line.append(sources[idx].as_str());
        proof {
            assert(line@ =~= "  Caused by: "@ + sources[idx as int]@);
        }
        lines.push(line);
        idx = idx + 1;
    }
    lines
}

} // verus!
