//! The `CHANGE` command: sets a file's access and modification times.
//!
//! Its argument is a path, optionally followed by whitespace and a time in
//! whole seconds since 1970; without a time the current time is used.
use crate::text::{
    chars_of, find_newline, find_newline_at, is_digit, is_space, is_space_char, lemma_skip_digits,
    skip_digits, skip_digits_at, skip_spaces, skip_spaces_at,
};
use vstd::prelude::*;
use vstd::string::{StrSliceExecFns, StringExecFns};

verus! {

/// Whether the characters from index `k` on may follow a path: whitespace
/// only, or one whitespace character, decimal digits and whitespace.
pub open spec fn suffix_fits(s: Seq<char>, k: int) -> bool {
    skip_spaces(s, k) == s.len() || (0 <= k < s.len() && is_space(s[k]) && skip_digits(s, k + 1)
        >= k + 2 && skip_spaces(s, skip_digits(s, k + 1)) == s.len())
}

/// The length of the shortest path, of at least `k` characters and holding no
/// line feed, after which the rest of `s` fits.
pub open spec fn path_end_from(s: Seq<char>, k: int) -> Option<int>
    decreases s.len() + 1 - k,
{
    if 1 <= k <= s.len() && k <= find_newline(s, 0) {
        if suffix_fits(s, k) {
            Some(k)
        } else {
            path_end_from(s, k + 1)
        }
    } else {
        None
    }
}

/// The number that a sequence of decimal digits writes.
pub open spec fn digits_value(d: Seq<char>) -> int
    decreases d.len(),
{
    if d.len() == 0 {
        0
    } else {
        digits_value(d.drop_last()) * 10 + ((d.last() as u32) as int - 48)
    }
}

/// An explicit time, where it fits in an `i64`.
pub open spec fn explicit_time(d: Seq<char>) -> Option<i64> {
    if 0 <= digits_value(d) <= 0x7fff_ffff_ffff_ffff {
        Some(digits_value(d) as i64)
    } else {
        None
    }
}

/// The path and the digits of the explicit time, if any, that an argument
/// string gives, or `None` where it does not follow the grammar.
pub open spec fn parse_change_spec(s: Seq<char>) -> Option<(Seq<char>, Option<Seq<char>>)> {
    match path_end_from(s, 1) {
        None => None,
        Some(k) => Some(
            (
                s.take(k),
                if skip_spaces(s, k) == s.len() {
                    None
                } else {
                    Some(s.subrange(k + 1, skip_digits(s, k + 1)))
                },
            ),
        ),
    }
}

/// The time to set: the explicit one where it was given, else the clock's
/// reading; `None` where that time cannot be set (an explicit time beyond
/// `i64`, or a clock reading of the smallest `i64`).
pub open spec fn target_time(digits: Option<Seq<char>>, now: i64) -> Option<i64> {
    match digits {
        Some(d) => explicit_time(d),
        None => if now > i64::MIN {
            Some(now)
        } else {
            None
        },
    }
}

/// What an explicit time written with these digits becomes.
pub open spec fn time_arg_of(digits: Option<Seq<char>>) -> TimeArg {
    match digits {
        None => TimeArg::Clock,
        Some(d) => match explicit_time(d) {
            Some(t) => TimeArg::At(t),
            None => TimeArg::TooLarge,
        },
    }
}

pub open spec fn invalid_args_reply() -> Seq<char> {
    "ERR Invalid args"@
}

pub open spec fn ok_reply(args: Seq<char>) -> Seq<char> {
    "OK "@ + args
}

pub open spec fn err_reply(reason: Seq<char>) -> Seq<char> {
    "ERR "@ + reason
}

/// What a well-formed `CHANGE` may answer: `OK` with its arguments, or an error.
pub open spec fn change_outcome_reply(args: Seq<char>, r: Seq<char>) -> bool {
    r == ok_reply(args) || exists|e: Seq<char>| r == #[trigger] err_reply(e)
}

pub open spec fn out_of_range_reply() -> Seq<char> {
    "ERR Time out of range"@
}

/// The reply of `CHANGE` to any argument string: malformed arguments and an
/// explicit time beyond `i64` are answered without touching the filesystem.
pub open spec fn change_reply_fits(args: Seq<char>, r: Seq<char>) -> bool {
    match parse_change_spec(args) {
        None => r == invalid_args_reply(),
        Some((_, Some(d))) => if explicit_time(d) is None {
            r == out_of_range_reply()
        } else {
            change_outcome_reply(args, r)
        },
        Some((_, None)) => change_outcome_reply(args, r),
    }
}

/// The time that a `CHANGE` command asks for.
#[derive(PartialEq, Eq, Debug)]
pub enum TimeArg {
    /// None was given: the clock decides.
    Clock,
    /// Seconds since 1970.
    At(i64),
    /// Digits were given whose value does not fit in an `i64`.
    TooLarge,
}

/// The arguments of a `CHANGE` command.
pub struct ChangeArgs {
    pub path: String,
    pub time: TimeArg,
}

/// What `CHANGE` does with its arguments, given the clock's reading.
pub enum ChangeTarget {
    /// The arguments do not follow the grammar.
    Invalid,
    /// The time to set cannot be represented.
    OutOfRange,
    /// Set both times of the file at `path` to `seconds` after 1970.
    SetTimes { path: String, seconds: i64 },
}

fn suffix_fits_at(cs: &Vec<char>, k: usize) -> (r: bool)
    requires
        k <= cs@.len(),
    ensures
        r == suffix_fits(cs@, k as int),
{
    let n = cs.len();
    if skip_spaces_at(cs, k) == n {
        return true;
    }
    if k < n && is_space_char(cs[k]) {
        let j = skip_digits_at(cs, k + 1);
        j > k + 1 && skip_spaces_at(cs, j) == n
    } else {
        false
    }
}

/// The value of the digits `cs[from..to]`, where it fits in an `i64`.
fn digits_to_time(cs: &Vec<char>, from: usize, to: usize) -> (r: Option<i64>)
    requires
        from <= to <= cs@.len(),
        forall|m: int| from <= m < to ==> is_digit(cs@[m]),
    ensures
        r == explicit_time(cs@.subrange(from as int, to as int)),
{
    let mut v: i64 = 0;
    let mut over = false;
    let mut i = from;
    assert(cs@.subrange(from as int, from as int) =~= Seq::<char>::empty());
    while i < to
        invariant
            from <= i <= to <= cs@.len(),
            forall|m: int| from <= m < to ==> is_digit(cs@[m]),
            digits_value(cs@.subrange(from as int, i as int)) >= 0,
            !over ==> v as int == digits_value(cs@.subrange(from as int, i as int)),
            over ==> digits_value(cs@.subrange(from as int, i as int)) > 0x7fff_ffff_ffff_ffff,
        decreases to - i,
    {
        let ghost before = cs@.subrange(from as int, i as int);
        assert(is_digit(cs@[i as int]));
        let d = (cs[i] as u32 - 48) as i64;
        if !over {
            if v > (0x7fff_ffff_ffff_ffffi64 - d) / 10 {
                over = true;
                assert(v * 10 + d > 0x7fff_ffff_ffff_ffff) by (nonlinear_arith)
                    requires
                        v > (0x7fff_ffff_ffff_ffffi64 - d) / 10,
                        0 <= d <= 9,
                ;
            } else {
                assert(v * 10 + d <= 0x7fff_ffff_ffff_ffff) by (nonlinear_arith)
                    requires
                        v <= (0x7fff_ffff_ffff_ffffi64 - d) / 10,
                        0 <= d <= 9,
                        v >= 0,
                ;
                v = v * 10 + d;
            }
        }
        i = i + 1;
        assert(cs@.subrange(from as int, i as int).drop_last() =~= before);
    }
    if over {
        None
    } else {
        Some(v)
    }
}

/// Splits the argument string of `CHANGE` into a path and an optional
/// explicit time. The path is the shortest prefix (of at least one
/// character, without a line feed) after which only whitespace follows, or
/// one whitespace character, decimal digits and whitespace.
pub fn parse_change_args(args: &str) -> (r: Option<ChangeArgs>)
    ensures
        match parse_change_spec(args@) {
            None => r is None,
            Some((path, digits)) => r is Some && r->0.path@ == path && r->0.time == time_arg_of(
                digits,
            ),
        },
{
    let cs = chars_of(args);
    let n = cs.len();
    let nl = find_newline_at(&cs, 0);
    let mut k: usize = 1;
    while k <= n && k <= nl
        invariant
            1 <= k <= n + 1,
            n == cs@.len(),
            cs@ == args@,
            nl as int == find_newline(cs@, 0),
            path_end_from(cs@, 1) == path_end_from(cs@, k as int),
        decreases n + 1 - k,
    {
        if suffix_fits_at(&cs, k) {
            let path = args.substring_char(0, k).to_owned();
            assert(path@ =~= cs@.take(k as int));
            if skip_spaces_at(&cs, k) == n {
                return Some(ChangeArgs { path, time: TimeArg::Clock });
            }
            let j = skip_digits_at(&cs, k + 1);
            proof {
                lemma_skip_digits(cs@, k + 1);
            }
            let time = match digits_to_time(&cs, k + 1, j) {
                Some(t) => TimeArg::At(t),
                None => TimeArg::TooLarge,
            };
            return Some(ChangeArgs { path, time });
        }
        k = k + 1;
    }
    None
}

/// Relies on time::get_time: the current wall-clock time in whole seconds
/// since 1970. Nothing is known of the value.
#[verifier::external_body]
fn now_seconds() -> (r: i64) {
    time::get_time().sec
}

/// Relies on filetime::set_file_times, with the time built by
/// filetime::FileTime::from_unix_time: sets both the access and the
/// modification time of the file at `path`; a failure is rendered as text.
/// Nothing is known of the outcome, which depends on the filesystem. The
/// time is not the smallest `i64`, which the conversion to a system time
/// would negate.
#[verifier::external_body]
fn set_file_times(path: &str, seconds: i64) -> (r: Result<(), String>)
    requires
        seconds > i64::MIN,
{
    let t = filetime::FileTime::from_unix_time(seconds, 0);
    filetime::set_file_times(path, t, t).map_err(|e| e.to_string())
}

/// The reply of `CHANGE` once the file times were set, or failed to be:
/// `OK` followed by the arguments as sent, or `ERR` followed by the failure.
pub fn change_reply(args: &str, outcome: Result<(), String>) -> (r: String)
    ensures
        match outcome {
            Ok(_) => r@ == ok_reply(args@),
            Err(e) => r@ == err_reply(e@),
        },
{
    match outcome {
        Ok(_) => String::from_str("OK ").concat(args),
        Err(e) => String::from_str("ERR ").concat(e.as_str()),
    }
}

/// What `CHANGE` hands to the time-setter, given the clock's reading `now`:
/// the parsed path, and the explicit time or else `now`.
pub fn change_target(args: &str, now: i64) -> (r: ChangeTarget)
    ensures
        match parse_change_spec(args@) {
            None => r is Invalid,
            Some((path, digits)) => match target_time(digits, now) {
                None => r is OutOfRange,
                Some(t) => r is SetTimes && r->path@ == path && r->seconds == t,
            },
        },
        r is SetTimes ==> r->seconds > i64::MIN,
{
    match parse_change_args(args) {
        None => ChangeTarget::Invalid,
        Some(parsed) => match parsed.time {
            TimeArg::At(t) => ChangeTarget::SetTimes { path: parsed.path, seconds: t },
            TimeArg::TooLarge => ChangeTarget::OutOfRange,
            TimeArg::Clock => if now > i64::MIN {
                ChangeTarget::SetTimes { path: parsed.path, seconds: now }
            } else {
                ChangeTarget::OutOfRange
            },
        },
    }
}

/// Runs `CHANGE` with the given argument string: sets the times of the named
/// file to the explicit time, or to the current time where none is given.
/// Malformed arguments, and times that cannot be set, leave the filesystem
/// alone.
pub fn execute(args: &str) -> (r: String)
    ensures
        change_reply_fits(args@, r@),
{
    let now = now_seconds();
    match change_target(args, now) {
        ChangeTarget::Invalid => String::from_str("ERR Invalid args"),
        ChangeTarget::OutOfRange => {
            let r = change_reply(args, Err(String::from_str("Time out of range")));
            proof {
                reveal_strlit("ERR ");
                reveal_strlit("Time out of range");
                reveal_strlit("ERR Time out of range");
                assert(r@ =~= out_of_range_reply());
            }
            r
        },
        ChangeTarget::SetTimes { path, seconds } => change_reply(
            args,
            set_file_times(path.as_str(), seconds),
        ),
    }
}

} // verus!
