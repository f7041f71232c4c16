//! One line in, one reply out: the command grammar, the dispatch to the
//! commands, and the handling of the bytes a connection receives.
use crate::commands::change::{self, change_reply_fits};
use crate::commands::help::{self, help_text};
use crate::text::{
    chars_of, find_newline, find_newline_at, is_space, is_space_char, same_text, skip_upper,
    skip_upper_at, trim_end, trim_end_at,
};
use vstd::prelude::*;
use vstd::string::{StrSliceExecFns, StringExecFns};
use vstd::utf8::{decode_utf8, valid_utf8};

verus! {

pub const ERR_UNKNOWN_CMD: &'static str = "ERR Unknown command. Send HELP for command list.";

pub const ERR_BAD_CMD_FORMAT: &'static str = "ERR Bad command format. Send HELP for details.";

pub open spec fn unknown_command_reply() -> Seq<char> {
    "ERR Unknown command. Send HELP for command list."@
}

pub open spec fn bad_format_reply() -> Seq<char> {
    "ERR Bad command format. Send HELP for details."@
}

/// The command name and the argument string of a line, or `None` where the
/// line does not start with an uppercase letter. The name is the leading run
/// of uppercase letters. Where one whitespace character and at least one
/// more character follow it, the arguments are the rest of the line up to
/// any line feed, without trailing whitespace; else they are empty.
pub open spec fn parse_command_spec(s: Seq<char>) -> Option<(Seq<char>, Seq<char>)> {
    let n = skip_upper(s, 0);
    if n == 0 {
        None
    } else {
        Some(
            (
                s.take(n),
                if n < s.len() && is_space(s[n]) && find_newline(s, n + 1) > n + 1 {
                    s.subrange(n + 1, trim_end(s, n + 1, find_newline(s, n + 1)))
                } else {
                    Seq::empty()
                },
            ),
        )
    }
}

/// The replies a command may give: `HELP` its fixed text whatever the
/// arguments, `CHANGE` what its handler allows, any other name the
/// unknown-command error.
pub open spec fn command_reply_fits(cmd: Seq<char>, args: Seq<char>, r: Seq<char>) -> bool {
    if cmd == "HELP"@ {
        r == help_text()
    } else if cmd == "CHANGE"@ {
        change_reply_fits(args, r)
    } else {
        r == unknown_command_reply()
    }
}

/// The replies a line may give.
pub open spec fn line_reply_fits(line: Seq<char>, r: Seq<char>) -> bool {
    match parse_command_spec(line) {
        None => r == bad_format_reply(),
        Some((cmd, args)) => command_reply_fits(cmd, args, r),
    }
}

/// A reply as written to the client: the reply followed by a line feed.
pub open spec fn response_fits(line: Seq<char>, resp: Seq<char>) -> bool {
    resp.len() > 0 && resp.last() == '\n' && line_reply_fits(line, resp.drop_last())
}

/// `HELP` answers every line that names it with the same text, whatever
/// arguments follow and however often it is sent.
pub proof fn lemma_help_is_fixed(line1: Seq<char>, r1: Seq<char>, line2: Seq<char>, r2: Seq<char>)
    requires
        match parse_command_spec(line1) {
            Some((cmd, _)) => cmd == "HELP"@,
            None => false,
        },
        match parse_command_spec(line2) {
            Some((cmd, _)) => cmd == "HELP"@,
            None => false,
        },
        line_reply_fits(line1, r1),
        line_reply_fits(line2, r2),
    ensures
        r1 == help_text(),
        r1 == r2,
{
}

/// A line split into its command name and its argument string.
pub struct ParsedCommand {
    pub name: String,
    pub args: String,
}

/// Splits a line into a command name and an argument string.
pub fn parse_command(line: &str) -> (r: Option<ParsedCommand>)
    ensures
        match parse_command_spec(line@) {
            None => r is None,
            Some((name, args)) => r is Some && r->0.name@ == name && r->0.args@ == args,
        },
{
    let cs = chars_of(line);
    let len = cs.len();
    let n = skip_upper_at(&cs, 0);
    if n == 0 {
        return None;
    }
    let name = line.substring_char(0, n).to_owned();
    assert(name@ =~= line@.take(n as int));
    let args = if n < len && is_space_char(cs[n]) {
        let e = find_newline_at(&cs, n + 1);
        if e > n + 1 {
            let t = trim_end_at(&cs, n + 1, e);
            line.substring_char(n + 1, t).to_owned()
        } else {
            String::new()
        }
    } else {
        String::new()
    };
    Some(ParsedCommand { name, args })
}

/// Runs the named command with its argument string.
pub fn run_command(cmd: &str, args: &str) -> (r: String)
    ensures
        command_reply_fits(cmd@, args@, r@),
{
    if same_text(cmd, "HELP") {
        help::execute()
    } else if same_text(cmd, "CHANGE") {
        change::execute(args)
    } else {
        String::from_str(ERR_UNKNOWN_CMD)
    }
}

/// The reply to one line.
pub fn process_line(line: &str) -> (r: String)
    ensures
        line_reply_fits(line@, r@),
{
    match parse_command(line) {
        None => String::from_str(ERR_BAD_CMD_FORMAT),
        Some(parsed) => run_command(parsed.name.as_str(), parsed.args.as_str()),
    }
}

/// The text of a line as `String::from_utf8_lossy` decodes it.
pub uninterp spec fn lossy_utf8(b: Seq<u8>) -> Seq<char>;

/// Relies on String::from_utf8_lossy: decodes the bytes, replacing each
/// invalid sequence with U+FFFD; valid UTF-8 is decoded as it stands.
#[verifier::external_body]
fn decode_line(b: &[u8]) -> (r: String)
    ensures
        r@ == lossy_utf8(b@),
        valid_utf8(b@) ==> r@ == decode_utf8(b@),
{
    String::from_utf8_lossy(b).into_owned()
}

/// The response to one line as received, before any later line is looked
/// at: the reply to its text followed by a line feed. A line that is valid
/// UTF-8, as every ASCII line is, is answered for exactly its characters.
pub fn respond_line(line: &[u8]) -> (resp: String)
    ensures
        response_fits(lossy_utf8(line@), resp@),
        valid_utf8(line@) ==> response_fits(decode_utf8(line@), resp@),
{
    let text = decode_line(line);
    let mut resp = process_line(text.as_str());
    let ghost body = resp@;
    resp.append("\n");
    proof {
        reveal_strlit("\n");
        assert(resp@.drop_last() =~= body);
    }
    resp
}

/// The identifier of the connection accepted after the one numbered `id`;
/// the count wraps around at the bound of `u32`.
pub fn next_connection_id(id: u32) -> (r: u32)
    ensures
        r as int == (id as int + 1) % 0x1_0000_0000,
{
    id.wrapping_add(1)
}

} // verus!
