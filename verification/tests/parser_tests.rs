//! Tests of the command parser: every line maps to exactly one command,
//! keywords are case-insensitive, and missing optional arguments fall back to
//! the `unknown` sentinel.

use irc_core::command::{parse_command, Command};

fn b(s: &str) -> Vec<u8> {
    s.as_bytes().to_vec()
}

#[test]
fn nick_with_argument() {
    assert_eq!(parse_command("NICK alice"), Command::Nick(b("alice")));
}

#[test]
fn nick_is_case_insensitive() {
    assert_eq!(parse_command("nick alice"), Command::Nick(b("alice")));
    assert_eq!(parse_command("NiCk alice"), Command::Nick(b("alice")));
}

#[test]
fn nick_without_argument_gets_sentinel() {
    assert_eq!(parse_command("NICK"), Command::Nick(b("unknown")));
}

#[test]
fn user_quit_ping_pong() {
    assert_eq!(parse_command("USER carol"), Command::User(b("carol")));
    assert_eq!(parse_command("QUIT"), Command::Quit);
    assert_eq!(parse_command("PING"), Command::Ping);
    assert_eq!(parse_command("pong"), Command::Pong);
}

#[test]
fn join_and_part() {
    assert_eq!(parse_command("JOIN #team"), Command::Join(b("#team")));
    assert_eq!(parse_command("PART #team"), Command::Part(b("#team")));
    assert_eq!(parse_command("JOIN"), Command::Join(b("unknown")));
    assert_eq!(parse_command("PART"), Command::Part(b("unknown")));
}

#[test]
fn privmsg_rejoins_message_tokens() {
    assert_eq!(
        parse_command("PRIVMSG bob hello there world"),
        Command::PrivMsg(b("bob"), b("hello there world"))
    );
}

#[test]
fn privmsg_collapses_extra_whitespace() {
    assert_eq!(
        parse_command("PRIVMSG  bob   hello   there"),
        Command::PrivMsg(b("bob"), b("hello there"))
    );
}

#[test]
fn privmsg_without_message_is_unknown() {
    assert_eq!(
        parse_command("PRIVMSG bob"),
        Command::Unknown(b("PRIVMSG bob"))
    );
}

#[test]
fn mode_with_target() {
    assert_eq!(
        parse_command("MODE #team +o bob"),
        Command::Mode(b("#team"), b("+o"), b("bob"))
    );
}

#[test]
fn mode_without_target_gets_sentinel() {
    assert_eq!(
        parse_command("MODE #team -o"),
        Command::Mode(b("#team"), b("-o"), b("unknown"))
    );
}

#[test]
fn mode_without_flag_is_unknown() {
    assert_eq!(parse_command("MODE #team"), Command::Unknown(b("MODE #team")));
}

#[test]
fn who_and_names() {
    assert_eq!(parse_command("WHO #team"), Command::Who(b("#team")));
    assert_eq!(parse_command("WHO"), Command::Unknown(b("WHO")));
    assert_eq!(parse_command("NAMES #team"), Command::Names(b("#team")));
    assert_eq!(parse_command("NAMES"), Command::Names(b("unknown")));
}

#[test]
fn cap_ls_302_exact_match() {
    assert_eq!(parse_command("CAP LS 302"), Command::CapLs302);
    assert_eq!(parse_command("cap ls 302"), Command::CapLs302);
}

#[test]
fn cap_with_other_arguments_is_unknown() {
    assert_eq!(parse_command("CAP FOO"), Command::Unknown(b("CAP FOO")));
    assert_eq!(parse_command("CAP LS 301"), Command::Unknown(b("CAP LS 301")));
}

#[test]
fn empty_and_blank_lines_are_unknown() {
    assert_eq!(parse_command(""), Command::Unknown(b("")));
    assert_eq!(parse_command("   "), Command::Unknown(b("   ")));
}

#[test]
fn unrecognized_command_echoes_line() {
    assert_eq!(
        parse_command("FNORD a b c"),
        Command::Unknown(b("FNORD a b c"))
    );
    assert_eq!(parse_command("OP #team"), Command::Unknown(b("OP #team")));
    assert_eq!(parse_command("DEOP #team"), Command::Unknown(b("DEOP #team")));
}

#[test]
fn tabs_split_tokens() {
    assert_eq!(parse_command("NICK\talice"), Command::Nick(b("alice")));
}
