//! The `HELP` command.
use vstd::prelude::*;
use vstd::string::StringExecFns;

verus! {

/// The text that `HELP` returns.
pub open spec fn help_text() -> Seq<char> {
    "Commands:\nCHANGE /path/to/file mtime\n\tMarks the given file path as changed. The mtime argument can optionally\n\tbe specified (in seconds) to set an explicit modified time."@
}

/// Describes the available commands; the text is always the same.
pub fn execute() -> (r: String)
    ensures
        r@ == help_text(),
{
    String::from_str(
        "Commands:\nCHANGE /path/to/file mtime\n\tMarks the given file path as changed. The mtime argument can optionally\n\tbe specified (in seconds) to set an explicit modified time.",
    )
}

} // verus!
