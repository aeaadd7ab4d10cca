//! The policy of the command bridge: the one host capability that a
//! sandboxed module can call to have an external program run.
//!
//! The bridge decides; it never runs anything itself. [`cli_run`] turns a
//! request into a [`CliStep`], the caller runs the program that a
//! [`CliStep::Run`] names, and [`cli_run_result`] turns what the program left
//! behind into the call's result.

use vstd::prelude::*;
use vstd::utf8::{decode_utf8, valid_utf8};
use crate::json::{json_error_text, json_string_array, parse_string_array};
use crate::text::begins_with;

verus! {

/// The mathematical value of a [`CliConfig`].
pub struct CliConfigView {
    pub enabled: bool,
    pub plugin_name: Seq<char>,
    pub data_dir_path: Seq<char>,
}

/// What the bridge knows of the plugin that calls it: whether the capability
/// is enabled, the plugin's name and its private data directory.
#[derive(Debug, Clone)]
pub struct CliConfig {
    pub enabled: bool,
    pub plugin_name: String,
    pub data_dir_path: String,
}

impl View for CliConfig {
    type V = CliConfigView;

    open spec fn view(&self) -> CliConfigView {
        CliConfigView {
            enabled: self.enabled,
            plugin_name: self.plugin_name@,
            data_dir_path: self.data_dir_path@,
        }
    }
}

/// Why a bridge call failed.
#[derive(Debug, Clone, PartialEq, Eq)]
pub enum BridgeError {
    /// The arguments were not a JSON array of strings; the parser's words.
    InvalidArguments(String),
    /// The program could not be started; the system's words.
    LaunchFailed(String),
    /// The program ran and reported failure; what it wrote to standard error.
    CommandFailed(String),
    /// The program succeeded and its output was not valid UTF-8.
    InvalidOutputEncoding,
}

/// The mathematical value of a [`BridgeError`].
pub enum BridgeErrorView {
    InvalidArguments(Seq<char>),
    LaunchFailed(Seq<char>),
    CommandFailed(Seq<char>),
    InvalidOutputEncoding,
}

impl View for BridgeError {
    type V = BridgeErrorView;

    open spec fn view(&self) -> BridgeErrorView {
        match self {
            BridgeError::InvalidArguments(text) => BridgeErrorView::InvalidArguments(text@),
            BridgeError::LaunchFailed(text) => BridgeErrorView::LaunchFailed(text@),
            BridgeError::CommandFailed(text) => BridgeErrorView::CommandFailed(text@),
            BridgeError::InvalidOutputEncoding => BridgeErrorView::InvalidOutputEncoding,
        }
    }
}

/// The text that describes an error to the module that made the call.
pub open spec fn error_message(error: BridgeErrorView) -> Seq<char> {
    match error {
        BridgeErrorView::InvalidArguments(text) => "Failed to parse args as JSON array: "@ + text,
        BridgeErrorView::LaunchFailed(text) => "Failed to execute command: "@ + text,
        BridgeErrorView::CommandFailed(text) => "Command failed: "@ + text,
        BridgeErrorView::InvalidOutputEncoding => "Invalid UTF-8 output"@,
    }
}

impl BridgeError {
    /// The text that describes this error to the module that made the call.
    pub fn message(&self) -> (text: String)
        ensures
            text@ == error_message(self@),
    {
        match self {
            BridgeError::InvalidArguments(detail) => {
                let mut text = "Failed to parse args as JSON array: ".to_owned();
                text.append(detail.as_str());
                text
            },
            BridgeError::LaunchFailed(detail) => {
                let mut text = "Failed to execute command: ".to_owned();
                text.append(detail.as_str());
                text
            },
            BridgeError::CommandFailed(detail) => {
                let mut text = "Command failed: ".to_owned();
                text.append(detail.as_str());
                text
            },
            BridgeError::InvalidOutputEncoding => "Invalid UTF-8 output".to_owned(),
        }
    }
}

/// What the bridge asks of its caller for one request.
#[derive(Debug, Clone, PartialEq, Eq)]
pub enum CliStep {
    /// Nothing is run: the text is the call's ordinary result.
    Reply(String),
    /// Nothing is run: the call fails.
    Fail(BridgeError),
    /// Run `program` with `args`, capture what it writes, and hand the
    /// outcome to [`cli_run_result`].
    Run { program: String, args: Vec<String> },
}

/// The mathematical value of a [`CliStep`].
pub enum CliStepView {
    Reply(Seq<char>),
    Fail(BridgeErrorView),
    Run { program: Seq<char>, args: Seq<Seq<char>> },
}

impl View for CliStep {
    type V = CliStepView;

    open spec fn view(&self) -> CliStepView {
        match self {
            CliStep::Reply(text) => CliStepView::Reply(text@),
            CliStep::Fail(error) => CliStepView::Fail(error@),
            CliStep::Run { program, args } => CliStepView::Run {
                program: program@,
                args: args.deep_view(),
            },
        }
    }
}

/// The notice that a module gets in place of a result while the capability
/// is disabled for its plugin.
pub open spec fn disabled_notice(plugin_name: Seq<char>) -> Seq<char> {
    "[plugin:"@ + plugin_name + "] [cli_run] CLI functionality is disabled in the manifest"@
}

/// The program that a requested command stands for. A command below the
/// module's `/data/` names the file of the same relative path below the
/// plugin's data directory; any other command is taken as it is.
pub open spec fn resolved_command(data_dir_path: Seq<char>, command: Seq<char>) -> Seq<char> {
    if "/data/"@.is_prefix_of(command) {
        data_dir_path + seq!['/'] + command.skip("/data/"@.len() as int)
    } else {
        command
    }
}

/// What is to be done for a request, given what the arguments parsed to:
/// the strings, or the parser's complaint.
pub open spec fn planned_step(
    config: CliConfigView,
    command: Seq<char>,
    parsed_args: Result<Seq<Seq<char>>, Seq<char>>,
) -> CliStepView {
    if !config.enabled {
        CliStepView::Reply(disabled_notice(config.plugin_name))
    } else {
        match parsed_args {
            Err(complaint) => CliStepView::Fail(BridgeErrorView::InvalidArguments(complaint)),
            Ok(args) => CliStepView::Run {
                program: resolved_command(config.data_dir_path, command),
                args,
            },
        }
    }
}

/// The view of parsed arguments.
pub open spec fn parsed_view(parsed_args: Result<Vec<String>, String>) -> Result<
    Seq<Seq<char>>,
    Seq<char>,
> {
    match parsed_args {
        Ok(args) => Ok(args.deep_view()),
        Err(complaint) => Err(complaint@),
    }
}

/// Builds the notice for a plugin whose capability is disabled.
pub fn make_disabled_notice(plugin_name: &str) -> (text: String)
    ensures
        text@ == disabled_notice(plugin_name@),
{
    let mut text = "[plugin:".to_owned();
    text.append(plugin_name);
    text.append("] [cli_run] CLI functionality is disabled in the manifest");
    text
}

/// Resolves a requested command against the plugin's data directory.
pub fn resolve_command(data_dir_path: &str, command: &str) -> (program: String)
    ensures
        program@ == resolved_command(data_dir_path@, command@),
{
    proof {
        reveal_strlit("/data/");
        reveal_strlit("/");
    }
    if begins_with(command, "/data/") {
        let n: usize = command.unicode_len();
        let relative = command.substring_char(6, n);
        let mut program = data_dir_path.to_owned();
        program.append("/");
        program.append(relative);
        proof {
            assert("/"@ =~= seq!['/']);
            assert(command@.skip(6) =~= command@.subrange(6, n as int));
        }
        program
    } else {
        command.to_owned()
    }
}

/// Decides what is to be done for a request whose arguments have been parsed.
pub fn plan_cli_run(
    config: &CliConfig,
    command: &str,
    parsed_args: Result<Vec<String>, String>,
) -> (step: CliStep)
    ensures
        step@ == planned_step(config@, command@, parsed_view(parsed_args)),
{
    if !config.enabled {
        return CliStep::Reply(make_disabled_notice(config.plugin_name.as_str()));
    }
    match parsed_args {
        Err(complaint) => CliStep::Fail(BridgeError::InvalidArguments(complaint)),
        Ok(args) => CliStep::Run {
            program: resolve_command(config.data_dir_path.as_str(), command),
            args,
        },
    }
}

/// Decides what is to be done for a request as a module makes it: a command
/// and its arguments as the text of a JSON array of strings.
///
/// While the capability is disabled the answer is the notice, whatever was
/// requested. Otherwise arguments that are no JSON array of strings fail the
/// call, and arguments that are one lead to a run of the resolved command.
pub fn cli_run(config: &CliConfig, command: &str, args: &str) -> (step: CliStep)
    ensures
        !config.enabled ==> step@ == CliStepView::Reply(disabled_notice(config@.plugin_name)),
        config.enabled ==> match json_string_array(args@) {
            Some(strings) => step@ == CliStepView::Run {
                program: resolved_command(config@.data_dir_path, command@),
                args: strings,
            },
            None => step@ is Fail && step@->Fail_0 is InvalidArguments,
        },
{
    if !config.enabled {
        return CliStep::Reply(make_disabled_notice(config.plugin_name.as_str()));
    }
    let parsed = match parse_string_array(args) {
        Ok(strings) => Ok(strings),
        Err(error) => Err(json_error_text(&error)),
    };
    plan_cli_run(config, command, parsed)
}

/// What became of the program that a [`CliStep::Run`] named.
#[derive(Debug, Clone, PartialEq, Eq)]
pub enum ProcessOutcome {
    /// It could not be started; the system's words.
    NotStarted(String),
    /// It ran to its end.
    Exited { success: bool, stdout: Vec<u8>, stderr: Vec<u8> },
}

/// The text of a byte string as `String::from_utf8_lossy` reads it.
pub uninterp spec fn lossy_text_of(bytes: Seq<u8>) -> Seq<char>;

/// `String::from_utf8` of the standard library: the text that the bytes
/// encode, where they are valid UTF-8, and nothing where they are not.
#[verifier::external_body]
fn text_of_utf8(bytes: Vec<u8>) -> (text: Option<String>)
    ensures
        match text {
            Some(t) => valid_utf8(bytes@) && t@ == decode_utf8(bytes@),
            None => !valid_utf8(bytes@),
        },
{
    match String::from_utf8(bytes) {
        Ok(text) => Some(text),
        Err(_) => None,
    }
}

/// `String::from_utf8_lossy` of the standard library: valid UTF-8 is read as
/// it stands; what it puts in place of invalid bytes is named, not described.
#[verifier::external_body]
fn lossy_text(bytes: &Vec<u8>) -> (text: String)
    ensures
        text@ == lossy_text_of(bytes@),
        valid_utf8(bytes@) ==> text@ == decode_utf8(bytes@),
{
    String::from_utf8_lossy(bytes).into_owned()
}

/// The result of a bridge call whose program was run.
pub open spec fn call_result(outcome: ProcessOutcome) -> Result<Seq<char>, BridgeErrorView> {
    match outcome {
        ProcessOutcome::NotStarted(words) => Err(BridgeErrorView::LaunchFailed(words@)),
        ProcessOutcome::Exited { success, stdout, stderr } => if !success {
            Err(BridgeErrorView::CommandFailed(lossy_text_of(stderr@)))
        } else if valid_utf8(stdout@) {
            Ok(decode_utf8(stdout@))
        } else {
            Err(BridgeErrorView::InvalidOutputEncoding)
        },
    }
}

/// Turns the outcome of a run into the result of the bridge call: the
/// program's output as text where it succeeded, its complaint where it failed.
pub fn cli_run_result(outcome: ProcessOutcome) -> (result: Result<String, BridgeError>)
    ensures
        match result {
            Ok(text) => call_result(outcome) == Ok::<Seq<char>, BridgeErrorView>(text@),
            Err(error) => call_result(outcome) == Err::<Seq<char>, BridgeErrorView>(error@),
        },
{
    match outcome {
        ProcessOutcome::NotStarted(words) => Err(BridgeError::LaunchFailed(words)),
        ProcessOutcome::Exited { success, stdout, stderr } => {
            if !success {
                Err(BridgeError::CommandFailed(lossy_text(&stderr)))
            } else {
                match text_of_utf8(stdout) {
                    Some(text) => Ok(text),
                    None => Err(BridgeError::InvalidOutputEncoding),
                }
            }
        },
    }
}

} // verus!
