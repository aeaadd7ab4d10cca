use plugin_host::bridge::{
    cli_run, cli_run_result, make_disabled_notice, plan_cli_run, resolve_command, BridgeError, CliConfig,
    CliStep, ProcessOutcome,
};

fn config(enabled: bool) -> CliConfig {
    CliConfig {
        enabled,
        plugin_name: "notes".to_string(),
        data_dir_path: "/var/plugins/notes".to_string(),
    }
}

fn strings(items: &[&str]) -> Vec<String> {
    items.iter().map(|s| s.to_string()).collect()
}

const NOTICE: &str = "[plugin:notes] [cli_run] CLI functionality is disabled in the manifest";

#[test]
fn bridge_disabled_replies_with_the_notice() {
    assert_eq!(cli_run(&config(false), "ls", "[]"), CliStep::Reply(NOTICE.to_string()));
    assert_eq!(cli_run(&config(false), "/data/tool", "[\"a\"]"), CliStep::Reply(NOTICE.to_string()));
}

#[test]
fn bridge_disabled_replies_whatever_is_requested() {
    for command in ["", "ls", "/data/x", "/bin/rm", "日本"].iter() {
        for args in ["[]", "not json", "", "[1]", "{\"a\":1}"].iter() {
            assert_eq!(cli_run(&config(false), command, args), CliStep::Reply(NOTICE.to_string()));
        }
    }
}

#[test]
fn bridge_notice_names_the_plugin() {
    assert_eq!(
        make_disabled_notice("p"),
        "[plugin:p] [cli_run] CLI functionality is disabled in the manifest"
    );
    assert_eq!(
        make_disabled_notice(""),
        "[plugin:] [cli_run] CLI functionality is disabled in the manifest"
    );
}

#[test]
fn bridge_data_path_is_confined_to_the_data_directory() {
    assert_eq!(
        cli_run(&config(true), "/data/tool", "[]"),
        CliStep::Run { program: "/var/plugins/notes/tool".to_string(), args: Vec::new() }
    );
    assert_eq!(resolve_command("/var/plugins/notes", "/data/tool"), "/var/plugins/notes/tool");
    assert_eq!(resolve_command("/d", "/data/bin/run me"), "/d/bin/run me");
    assert_eq!(resolve_command("/d", "/data/"), "/d/");
    assert_eq!(resolve_command("", "/data/x"), "/x");
    assert_eq!(resolve_command("/d", "/data//x"), "/d//x");
}

#[test]
fn bridge_other_commands_pass_through() {
    assert_eq!(resolve_command("/d", "ls"), "ls");
    assert_eq!(resolve_command("/d", "/data"), "/data");
    assert_eq!(resolve_command("/d", "data/x"), "data/x");
    assert_eq!(resolve_command("/d", "/usr/bin/env"), "/usr/bin/env");
    assert_eq!(resolve_command("/d", "x/data/y"), "x/data/y");
    assert_eq!(resolve_command("/d", "/Data/y"), "/Data/y");
    assert_eq!(resolve_command("/d", ""), "");
}

#[test]
fn bridge_arguments_are_read_as_a_json_array_of_strings() {
    assert_eq!(
        cli_run(&config(true), "echo", "[\"a\", \"b c\", \"\", \"\\u00e9\\n\"]"),
        CliStep::Run { program: "echo".to_string(), args: strings(&["a", "b c", "", "é\n"]) }
    );
    assert_eq!(
        cli_run(&config(true), "echo", "  [ ]  "),
        CliStep::Run { program: "echo".to_string(), args: Vec::new() }
    );
}

#[test]
fn bridge_malformed_arguments_fail_the_call() {
    for args in ["", "not json", "[", "[1]", "[\"a\", 2]", "{\"a\":\"b\"}", "\"a\"", "null", "[\"a\"] x", "[null]"].iter() {
        match cli_run(&config(true), "echo", args) {
            CliStep::Fail(BridgeError::InvalidArguments(words)) => assert!(!words.is_empty()),
            other => panic!("{:?} gave {:?}", args, other),
        }
    }
}

#[test]
fn bridge_invalid_arguments_carry_the_parser_words() {
    let expected = serde_json::from_str::<Vec<String>>("[1]").unwrap_err().to_string();
    assert_eq!(
        cli_run(&config(true), "echo", "[1]"),
        CliStep::Fail(BridgeError::InvalidArguments(expected))
    );
}

#[test]
fn bridge_plan_for_parsed_arguments() {
    assert_eq!(
        plan_cli_run(&config(true), "/data/a", Ok(strings(&["x"]))),
        CliStep::Run { program: "/var/plugins/notes/a".to_string(), args: strings(&["x"]) }
    );
    assert_eq!(
        plan_cli_run(&config(true), "/data/a", Err("bad".to_string())),
        CliStep::Fail(BridgeError::InvalidArguments("bad".to_string()))
    );
    assert_eq!(plan_cli_run(&config(false), "/data/a", Ok(strings(&["x"]))), CliStep::Reply(NOTICE.to_string()));
    assert_eq!(plan_cli_run(&config(false), "/data/a", Err("bad".to_string())), CliStep::Reply(NOTICE.to_string()));
}

#[test]
fn bridge_success_returns_standard_output() {
    let outcome = ProcessOutcome::Exited {
        success: true,
        stdout: "héllo\n".as_bytes().to_vec(),
        stderr: b"ignored".to_vec(),
    };
    assert_eq!(cli_run_result(outcome), Ok("héllo\n".to_string()));
    let empty = ProcessOutcome::Exited { success: true, stdout: Vec::new(), stderr: Vec::new() };
    assert_eq!(cli_run_result(empty), Ok(String::new()));
}

#[test]
fn bridge_success_with_invalid_utf8_fails() {
    let outcome = ProcessOutcome::Exited { success: true, stdout: vec![b'a', 0xff, b'b'], stderr: Vec::new() };
    assert_eq!(cli_run_result(outcome), Err(BridgeError::InvalidOutputEncoding));
    let overlong = ProcessOutcome::Exited { success: true, stdout: vec![0xc0, 0x80], stderr: Vec::new() };
    assert_eq!(cli_run_result(overlong), Err(BridgeError::InvalidOutputEncoding));
    let surrogate = ProcessOutcome::Exited { success: true, stdout: vec![0xed, 0xa0, 0x80], stderr: Vec::new() };
    assert_eq!(cli_run_result(surrogate), Err(BridgeError::InvalidOutputEncoding));
}

#[test]
fn bridge_failure_carries_standard_error() {
    let outcome = ProcessOutcome::Exited {
        success: false,
        stdout: b"partial".to_vec(),
        stderr: b"no such file\n".to_vec(),
    };
    assert_eq!(cli_run_result(outcome), Err(BridgeError::CommandFailed("no such file\n".to_string())));
}

#[test]
fn bridge_failure_reads_standard_error_leniently() {
    let outcome = ProcessOutcome::Exited { success: false, stdout: Vec::new(), stderr: vec![b'a', 0xff, b'b'] };
    assert_eq!(cli_run_result(outcome), Err(BridgeError::CommandFailed("a\u{fffd}b".to_string())));
}

#[test]
fn bridge_program_that_did_not_start() {
    assert_eq!(
        cli_run_result(ProcessOutcome::NotStarted("No such file or directory (os error 2)".to_string())),
        Err(BridgeError::LaunchFailed("No such file or directory (os error 2)".to_string()))
    );
}

#[test]
fn bridge_error_messages() {
    assert_eq!(
        BridgeError::InvalidArguments("expected value".to_string()).message(),
        "Failed to parse args as JSON array: expected value"
    );
    assert_eq!(BridgeError::LaunchFailed("denied".to_string()).message(), "Failed to execute command: denied");
    assert_eq!(BridgeError::CommandFailed("boom".to_string()).message(), "Command failed: boom");
    assert_eq!(BridgeError::InvalidOutputEncoding.message(), "Invalid UTF-8 output");
}
