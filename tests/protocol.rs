use fs_eventbridge::commands::change::{
    change_reply, change_target, execute as change_execute, parse_change_args, ChangeTarget, TimeArg,
};
use fs_eventbridge::commands::help::execute as help_execute;
use fs_eventbridge::connection::Connection;
use fs_eventbridge::protocol::{next_connection_id, parse_command, respond_line};
use fs_eventbridge::{process_line, run_command, ERR_BAD_CMD_FORMAT, ERR_UNKNOWN_CMD};

#[test]
fn detects_unknown_command() {
    assert_eq!(run_command("null", "").as_str(), ERR_UNKNOWN_CMD);
}

#[test]
fn detects_bad_command_format() {
    assert_eq!(process_line("foo bar").as_str(), ERR_BAD_CMD_FORMAT);
}

#[test]
fn help_is_fixed_text() {
    let expected = "Commands:\nCHANGE /path/to/file mtime\n\tMarks the given file path as changed. The mtime argument can optionally\n\tbe specified (in seconds) to set an explicit modified time.";
    assert_eq!(help_execute(), expected);
    assert_eq!(process_line("HELP"), expected);
    assert_eq!(process_line("HELP"), expected);
    assert_eq!(process_line("HELP me please"), expected);
    assert_eq!(run_command("HELP", "anything"), expected);
}

#[test]
fn unknown_command_is_reported() {
    assert_eq!(
        process_line("FROBNICATE x"),
        "ERR Unknown command. Send HELP for command list."
    );
}

#[test]
fn bad_format_is_reported() {
    assert_eq!(process_line(""), "ERR Bad command format. Send HELP for details.");
    assert_eq!(process_line("help"), "ERR Bad command format. Send HELP for details.");
    assert_eq!(process_line(" HELP"), "ERR Bad command format. Send HELP for details.");
    assert_eq!(process_line("1CHANGE"), "ERR Bad command format. Send HELP for details.");
}

#[test]
fn change_without_path_is_invalid() {
    assert_eq!(process_line("CHANGE   "), "ERR Invalid args");
    assert_eq!(process_line("CHANGE"), "ERR Invalid args");
    assert_eq!(change_execute(""), "ERR Invalid args");
}

#[test]
fn change_on_missing_file_reports_failure() {
    let r = process_line("CHANGE /nonexistent/path 123");
    assert!(r.starts_with("ERR "));
    assert_ne!(r, "ERR Invalid args");
    assert!(r.len() > 4);
}

#[test]
fn change_reply_echoes_arguments() {
    assert_eq!(
        change_reply("/tmp/foo.txt 1000000000", Ok(())),
        "OK /tmp/foo.txt 1000000000"
    );
    assert_eq!(
        change_reply("/x", Err(String::from("No such file or directory"))),
        "ERR No such file or directory"
    );
}

#[test]
fn change_args_with_time() {
    let a = parse_change_args("/tmp/foo.txt 1000000000").unwrap();
    assert_eq!(a.path, "/tmp/foo.txt");
    assert_eq!(a.time, TimeArg::At(1000000000));
}

#[test]
fn change_args_without_time() {
    let a = parse_change_args("/tmp/foo.txt").unwrap();
    assert_eq!(a.path, "/tmp/foo.txt");
    assert_eq!(a.time, TimeArg::Clock);
    let b = parse_change_args("abc  ").unwrap();
    assert_eq!(b.path, "abc");
    assert_eq!(b.time, TimeArg::Clock);
}

#[test]
fn change_args_path_is_shortest() {
    let a = parse_change_args("a 1 2").unwrap();
    assert_eq!(a.path, "a 1");
    assert_eq!(a.time, TimeArg::At(2));
    let b = parse_change_args("my file.txt 12 ").unwrap();
    assert_eq!(b.path, "my file.txt");
    assert_eq!(b.time, TimeArg::At(12));
    let c = parse_change_args("f 12x").unwrap();
    assert_eq!(c.path, "f 12x");
    assert_eq!(c.time, TimeArg::Clock);
}

#[test]
fn change_args_time_too_large() {
    let a = parse_change_args("f 99999999999999999999").unwrap();
    assert_eq!(a.path, "f");
    assert_eq!(a.time, TimeArg::TooLarge);
    let b = parse_change_args("f 9223372036854775807").unwrap();
    assert_eq!(b.time, TimeArg::At(9223372036854775807));
    let c = parse_change_args("f 9223372036854775808").unwrap();
    assert_eq!(c.time, TimeArg::TooLarge);
    assert_eq!(process_line("CHANGE f 99999999999999999999"), "ERR Time out of range");
}

#[test]
fn change_target_explicit_time() {
    match change_target("/tmp/foo.txt 1000000000", 77) {
        ChangeTarget::SetTimes { path, seconds } => {
            assert_eq!(path, "/tmp/foo.txt");
            assert_eq!(seconds, 1000000000);
        }
        _ => panic!("expected a target"),
    }
}

#[test]
fn change_target_clock_time() {
    match change_target("/tmp/foo.txt  ", 1234) {
        ChangeTarget::SetTimes { path, seconds } => {
            assert_eq!(path, "/tmp/foo.txt");
            assert_eq!(seconds, 1234);
        }
        _ => panic!("expected a target"),
    }
    assert!(matches!(change_target("/x", i64::MIN), ChangeTarget::OutOfRange));
}

#[test]
fn change_target_rejections() {
    assert!(matches!(change_target("", 5), ChangeTarget::Invalid));
    assert!(matches!(change_target("f 99999999999999999999", 5), ChangeTarget::OutOfRange));
}

#[test]
fn change_args_unicode_whitespace() {
    let a = parse_change_args("/tmp/x\u{2003}42\u{a0}").unwrap();
    assert_eq!(a.path, "/tmp/x");
    assert_eq!(a.time, TimeArg::At(42));
    let b = parse_change_args("/tmp/y\u{a0}\u{3000}").unwrap();
    assert_eq!(b.path, "/tmp/y");
    assert_eq!(b.time, TimeArg::Clock);
}

#[test]
fn command_split_unicode_whitespace() {
    let p = parse_command("CHANGE\u{2003}/tmp/x 5\u{a0}").unwrap();
    assert_eq!(p.name, "CHANGE");
    assert_eq!(p.args, "/tmp/x 5");
}

#[test]
fn change_args_rejected() {
    assert!(parse_change_args("").is_none());
    assert!(parse_change_args("\nabc").is_none());
}

#[test]
fn command_split() {
    let p = parse_command("CHANGE  /x  ").unwrap();
    assert_eq!(p.name, "CHANGE");
    assert_eq!(p.args, " /x");
    let q = parse_command("HELPme").unwrap();
    assert_eq!(q.name, "HELP");
    assert_eq!(q.args, "");
    let r = parse_command("CHANGE /tmp/a 5\t").unwrap();
    assert_eq!(r.args, "/tmp/a 5");
    assert!(parse_command("change /x").is_none());
}

fn answers(conn: &mut Connection, chunk: &[u8]) -> Vec<String> {
    conn.receive(chunk);
    let mut out = Vec::new();
    while let Some(r) = conn.next_response() {
        out.push(r);
    }
    out
}

const UNKNOWN: &str = "ERR Unknown command. Send HELP for command list.\n";

#[test]
fn connection_answers_each_line() {
    let mut c = Connection::new();
    let r = answers(&mut c, b"HELP\r\nFROB");
    assert_eq!(r.len(), 1);
    assert_eq!(r[0], format!("{}\n", help_execute()));
    let r2 = answers(&mut c, b"NICATE\nhelp\n");
    assert_eq!(
        r2,
        vec![
            String::from(UNKNOWN),
            String::from("ERR Bad command format. Send HELP for details.\n"),
        ]
    );
    assert!(c.next_response().is_none());
}

#[test]
fn connection_byte_by_byte() {
    let stream = b"FROBNICATE x\nHELP\n";
    let mut c = Connection::new();
    let mut got = Vec::new();
    for b in stream.iter() {
        got.extend(answers(&mut c, &[*b]));
    }
    let mut whole = Connection::new();
    assert_eq!(got, answers(&mut whole, stream));
    assert_eq!(got, vec![String::from(UNKNOWN), format!("{}\n", help_execute())]);
}

#[test]
fn connection_cr_lf_across_chunks() {
    let mut c = Connection::new();
    let mut got = answers(&mut c, b"FROBNICATE a\r");
    got.extend(answers(&mut c, b"\nFROBNICATE b\rFROBNICATE c\n"));
    assert_eq!(got, vec![String::from(UNKNOWN); 3]);
}

#[test]
fn connection_queues_until_asked() {
    let mut c = Connection::new();
    c.receive(b"FROB\nHELP\n");
    c.receive(b"help\n");
    assert_eq!(c.next_response().unwrap(), UNKNOWN);
    assert_eq!(c.next_response().unwrap(), format!("{}\n", help_execute()));
    assert_eq!(
        c.next_response().unwrap(),
        "ERR Bad command format. Send HELP for details.\n"
    );
    assert!(c.next_response().is_none());
}

#[test]
fn connection_drops_half_line_on_close() {
    let mut first = Connection::new();
    assert!(answers(&mut first, b"HE").is_empty());
    drop(first);
    let mut second = Connection::new();
    assert_eq!(answers(&mut second, b"LP\n"), vec![String::from(UNKNOWN)]);
}

#[test]
fn respond_line_decodes_invalid_utf8() {
    assert_eq!(
        respond_line(&[0xff, b'X']),
        "ERR Bad command format. Send HELP for details.\n"
    );
    assert_eq!(respond_line(&[b'Q', 0xff]), UNKNOWN);
    assert_eq!(respond_line(b"HELP"), format!("{}\n", help_execute()));
}

#[test]
fn connection_ids_wrap() {
    assert_eq!(next_connection_id(0), 1);
    assert_eq!(next_connection_id(41), 42);
    assert_eq!(next_connection_id(u32::MAX), 0);
}

#[test]
fn connection_peeks_oldest_line() {
    let mut c = Connection::new();
    assert!(c.peek_line().is_none());
    c.receive(b"FROB\r\nHELP");
    assert_eq!(c.peek_line(), Some(&b"FROB".to_vec()));
    assert_eq!(c.next_response().unwrap(), UNKNOWN);
    assert!(c.peek_line().is_none());
}
