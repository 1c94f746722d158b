//! The provider tools: `gh`, `glab` and `tea`. What to report when one of them
//! does not do as asked.

use vstd::prelude::*;

use crate::number::to_decimal;
use crate::text::{first_line_of, join_texts, to_chars, trimmed};

verus! {

/// A tool and its arguments, as typed.
pub open spec fn invocation(tool: Seq<char>, args: Seq<Seq<char>>) -> Seq<char> {
    tool + " "@ + crate::text::join(args, " "@)
}

fn write_invocation(tool: &str, args: &Vec<String>) -> (r: String)
    ensures
        r@ == invocation(tool@, crate::text::texts(args@)),
{
    let mut out = tool.to_owned();
    out.append(" ");
    let line = join_texts(args.as_slice(), " ");
    out.append(line.as_str());
    out
}

/// What to report of an invocation that exited with a failure: the first line of
/// what the tool said.
pub fn tool_failure(tool: &str, args: &Vec<String>, stderr: &str) -> (r: String)
    ensures
        r@ == invocation(tool@, crate::text::texts(args@)) + " failed: "@ + (if crate::text::trim(
            stderr@,
        ).len() == 0 {
            "no output"@
        } else {
            crate::text::first_line(crate::text::trim(stderr@))
        }),
{
    let mut out = write_invocation(tool, args);
    out.append(" failed: ");
    let v = to_chars(stderr);
    let said = trimmed(v.as_slice());
    if said.len() == 0 {
        out.append("no output");
    } else {
        let line = first_line_of(said);
        out.append(line.as_str());
    }
    out
}

/// What to report of an invocation that ran out of time.
pub fn tool_timeout(tool: &str, args: &Vec<String>, secs: u64) -> (r: String)
    ensures
        r@ == invocation(tool@, crate::text::texts(args@)) + " timed out after "@
            + crate::number::decimal(secs as int) + "s"@,
{
    let mut out = write_invocation(tool, args);
    out.append(" timed out after ");
    let n = to_decimal(secs);
    out.append(n.as_str());
    out.append("s");
    out
}

/// What to report of an invocation that could not be started.
pub fn tool_running(tool: &str, args: &Vec<String>) -> (r: String)
    ensures
        r@ == "running "@ + invocation(tool@, crate::text::texts(args@)),
{
    let mut out = "running ".to_owned();
    let line = write_invocation(tool, args);
    out.append(line.as_str());
    out
}

/// A command is written as its tool and its arguments, with a blank between each and the
/// next.
pub proof fn law_a_command_is_written_out(tool: Seq<char>, args: Seq<Seq<char>>, last: Seq<char>)
    ensures
        invocation(tool, seq![last]) == tool + " "@ + last,
        args.len() > 0 ==> invocation(tool, args.push(last)) == invocation(tool, args) + " "@
            + last,
{
    crate::text::law_parts_are_joined_in_order(args, last, " "@);
    assert(tool + " "@ + (crate::text::join(args, " "@) + " "@ + last) =~= tool + " "@
        + crate::text::join(args, " "@) + " "@ + last);
}

} // verus!
