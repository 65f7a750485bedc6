//! The dialogue with the shell: how its command is called, how its replies are read, and which
//! signal answers a request.

use vstd::prelude::*;
use vstd::string::StringExecFns;
use vstd::utf8::{decode_utf8, valid_utf8};

use crate::text::{
    find_full_line,
    first_full_line,
    from_utf8_lossy,
    law_full_lines_are_not_blank,
    lines_of,
    lossy_text,
    repaired_text,
    same_text,
    trim,
    trimmed,
    white_space,
};

verus! {

/// The command that talks to the shell.
pub const SHINY_SHELL_COMMAND: &'static str = "shiny-shell";

/// Why the shell did not answer.
#[derive(Debug)]
pub enum ShellError {
    /// The command could not be run.
    Io(String),
    /// The command failed, or its output makes no sense.
    ShinyShell(String),
    /// The shell refused the request, or the line to it broke.
    Ipc(String),
    /// A value could not be written or read.
    Json(String),
}

/// What went wrong with the shell.
pub enum ShellErrorView {
    Io(Seq<char>),
    ShinyShell(Seq<char>),
    Ipc(Seq<char>),
    Json(Seq<char>),
}

impl View for ShellError {
    type V = ShellErrorView;

    open spec fn view(&self) -> ShellErrorView {
        match self {
            ShellError::Io(text) => ShellErrorView::Io(text@),
            ShellError::ShinyShell(text) => ShellErrorView::ShinyShell(text@),
            ShellError::Ipc(text) => ShellErrorView::Ipc(text@),
            ShellError::Json(text) => ShellErrorView::Json(text@),
        }
    }
}

impl ShellErrorView {
    /// The words for an error.
    pub open spec fn words(self) -> Seq<char> {
        match self {
            ShellErrorView::Io(text) => "process error: "@ + text,
            ShellErrorView::ShinyShell(text) => "shiny-shell error: "@ + text,
            ShellErrorView::Ipc(text) => "ipc error: "@ + text,
            ShellErrorView::Json(text) => "json error: "@ + text,
        }
    }
}

impl ShellError {
    /// Says what went wrong.
    pub fn message(&self) -> (text: String)
        ensures
            text@ == self@.words(),
    {
        match self {
            ShellError::Io(text) => prefixed("process error: ", text.as_str()),
            ShellError::ShinyShell(text) => prefixed("shiny-shell error: ", text.as_str()),
            ShellError::Ipc(text) => prefixed("ipc error: ", text.as_str()),
            ShellError::Json(text) => prefixed("json error: ", text.as_str()),
        }
    }
}

fn prefixed(prefix: &str, text: &str) -> (both: String)
    ensures
        both@ == prefix@ + text@,
{
    let mut both: String = prefix.to_owned();
    both.append(text);
    both
}

/// A region of a monitor, in its logical pixels.
#[derive(Debug)]
pub struct CustomRegion {
    pub monitor: String,
    pub x: i32,
    pub y: i32,
    pub width: i32,
    pub height: i32,
}

/// The answer to a request for a region.
#[derive(Debug)]
pub enum RegionSelectorResult {
    Selected { key: String, result: CustomRegion },
    Cancelled { key: String },
}

/// What was chosen to share.
#[derive(Debug)]
pub enum SelectionResult {
    Monitor { allow_restore_token: bool, monitor: String },
    Window {
        allow_restore_token: bool,
        window_address: String,
        stable_id: String,
        clazz: String,
        title: String,
    },
    Custom { allow_restore_token: bool, region: CustomRegion },
}

/// The answer to a request to share.
#[derive(Debug)]
pub enum SharePickerResult {
    Selected { key: String, result: SelectionResult },
    Cancelled { key: String },
}

impl RegionSelectorResult {
    /// The request that is answered.
    pub open spec fn answers(self) -> Seq<char> {
        match self {
            RegionSelectorResult::Selected { key, .. } => key@,
            RegionSelectorResult::Cancelled { key } => key@,
        }
    }
}

impl SharePickerResult {
    /// The request that is answered.
    pub open spec fn answers(self) -> Seq<char> {
        match self {
            SharePickerResult::Selected { key, .. } => key@,
            SharePickerResult::Cancelled { key } => key@,
        }
    }
}

/// How a region is to be selected.
#[derive(Debug, Clone, Copy, PartialEq, Eq, Structural)]
pub struct RegionSelectorOptions {
    pub freeze: Option<bool>,
    pub hint_windows: Option<bool>,
    pub hint_layers: Option<bool>,
}

impl Default for RegionSelectorOptions {
    /// The shell decides.
    fn default() -> (options: Self)
        ensures
            options == (RegionSelectorOptions {
                freeze: None,
                hint_windows: None,
                hint_layers: None,
            }),
    {
        RegionSelectorOptions { freeze: None, hint_windows: None, hint_layers: None }
    }
}

/// What may be shared.
#[derive(Debug)]
pub struct SharePickerOptions {
    pub allow_monitor: Option<bool>,
    pub allow_window: Option<bool>,
    pub allow_custom_region: Option<bool>,
    pub allow_restore_token_default: Option<bool>,
    pub dialog_parent_window_handle: Option<String>,
}

/// What the shell is told of what may be shared.
#[verifier::ext_equal]
pub struct PickerView {
    pub allow_monitor: Option<bool>,
    pub allow_window: Option<bool>,
    pub allow_custom_region: Option<bool>,
    pub allow_restore_token_default: Option<bool>,
    pub dialog_parent_window_handle: Option<Seq<char>>,
}

impl View for SharePickerOptions {
    type V = PickerView;

    open spec fn view(&self) -> PickerView {
        PickerView {
            allow_monitor: self.allow_monitor,
            allow_window: self.allow_window,
            allow_custom_region: self.allow_custom_region,
            allow_restore_token_default: self.allow_restore_token_default,
            dialog_parent_window_handle: match self.dialog_parent_window_handle {
                Some(handle) => Some(handle@),
                None => None,
            },
        }
    }
}

impl Default for SharePickerOptions {
    /// The shell decides.
    fn default() -> (options: Self)
        ensures
            options@ == (PickerView {
                allow_monitor: None,
                allow_window: None,
                allow_custom_region: None,
                allow_restore_token_default: None,
                dialog_parent_window_handle: None,
            }),
    {
        SharePickerOptions {
            allow_monitor: None,
            allow_window: None,
            allow_custom_region: None,
            allow_restore_token_default: None,
            dialog_parent_window_handle: None,
        }
    }
}

/// The reply to a call.
#[derive(Debug)]
pub enum ShellCallResult<T> {
    Data { data: T },
    Error { message: String },
}

/// What the shell's command says where it failed: the first full line of what it wrote as errors.
pub open spec fn failure_words(stderr: Seq<char>) -> Seq<char> {
    match first_full_line(lines_of(stderr)) {
        Some(line) => line,
        None => "process failed or returned non-zero exit code"@,
    }
}

/// The words of a list of texts.
pub open spec fn words_of(list: Seq<String>) -> Seq<Seq<char>> {
    list.map_values(|text: String| text@)
}

/// The shell.
#[derive(Debug, Clone, Copy, PartialEq, Eq, Structural)]
pub struct ShinyShell;

impl Default for ShinyShell {
    fn default() -> (shell: Self)
        ensures
            shell == ShinyShell,
    {
        ShinyShell
    }
}

impl ShinyShell {
    /// The arguments of the command that calls a method.
    pub fn call_arguments(
        &self,
        target: &str,
        method_name: &str,
        parameters: &Vec<String>,
    ) -> (arguments: Vec<String>)
        ensures
            words_of(arguments@) == seq!["ipc"@, "call"@, target@, method_name@] + words_of(
                parameters@,
            ),
    {
        let mut arguments: Vec<String> = vec![
            "ipc".to_owned(),
            "call".to_owned(),
            target.to_owned(),
            method_name.to_owned(),
        ];
        assert(words_of(arguments@) == seq!["ipc"@, "call"@, target@, method_name@]);
        let mut i: usize = 0;
        while i < parameters.len()
            invariant
                i <= parameters@.len(),
                words_of(arguments@) == seq!["ipc"@, "call"@, target@, method_name@] + words_of(
                    parameters@,
                ).take(i as int),
            decreases parameters@.len() - i,
        {
            let ghost before = words_of(arguments@);
            let parameter: String = parameters[i].clone();
            arguments.push(parameter);
            assert(words_of(arguments@) == before.push(parameter@));
            assert(words_of(parameters@).take(i + 1) == words_of(parameters@).take(i as int).push(
                parameter@,
            ));
            i += 1;
        }
        assert(words_of(parameters@).take(i as int) == words_of(parameters@));
        arguments
    }

    /// The arguments of the command that listens for a signal.
    pub fn listen_arguments(&self, target: &str, signal: &str) -> (arguments: Vec<String>)
        ensures
            words_of(arguments@) == seq!["ipc"@, "listen"@, target@, signal@],
    {
        let arguments: Vec<String> = vec![
            "ipc".to_owned(),
            "listen".to_owned(),
            target.to_owned(),
            signal.to_owned(),
        ];
        assert(words_of(arguments@) == seq!["ipc"@, "listen"@, target@, signal@]);
        arguments
    }

    /// Reads how the command ended. It must succeed and write no errors; its output is the reply.
    pub fn read_output(&self, success: bool, stdout: &[u8], stderr: &[u8]) -> (reply: Result<
        String,
        ShellError,
    >)
        ensures
            match reply {
                Ok(text) => {
                    &&& success && stderr@.len() == 0
                    &&& text@ == trimmed(lossy_text(stdout@))
                },
                Err(error) => {
                    &&& !success || stderr@.len() > 0
                    &&& error@ == ShellErrorView::ShinyShell(failure_words(lossy_text(stderr@)))
                },
            },
    {
        let errors: String = from_utf8_lossy(stderr);
        let output: String = from_utf8_lossy(stdout);
        self.judge_output(success, stderr.len(), output.as_str(), errors.as_str())
    }

    /// Judges how the command ended, given its output and its errors as texts, and the number of
    /// bytes that the errors had.
    pub fn judge_output(
        &self,
        success: bool,
        error_bytes: usize,
        output: &str,
        errors: &str,
    ) -> (reply: Result<String, ShellError>)
        ensures
            match reply {
                Ok(text) => success && error_bytes == 0 && text@ == trimmed(output@),
                Err(error) => {
                    &&& !success || error_bytes > 0
                    &&& error@ == ShellErrorView::ShinyShell(failure_words(errors@))
                },
            },
    {
        if !success || error_bytes > 0 {
            let words: String = match find_full_line(errors) {
                Some(line) => line,
                None => "process failed or returned non-zero exit code".to_owned(),
            };
            return Err(ShellError::ShinyShell(words));
        }
        Ok(trim(output))
    }

    /// Takes the data out of a reply. One that could not be read is an error in its own words, or
    /// in those of the reader where it is empty.
    pub fn read_reply<T>(&self, text: String, parsed: Result<ShellCallResult<T>, String>) -> (data:
        Result<T, ShellError>)
        ensures
            match parsed {
                Ok(ShellCallResult::Data { data: value }) => data == Ok::<T, ShellError>(value),
                Ok(ShellCallResult::Error { message }) => data matches Err(error) && error@
                    == ShellErrorView::Ipc(message@),
                Err(problem) => data matches Err(error) && error@ == ShellErrorView::ShinyShell(
                    if text@.len() == 0 {
                        problem@
                    } else {
                        text@
                    },
                ),
            },
    {
        match parsed {
            Ok(ShellCallResult::Data { data: value }) => Ok(value),
            Ok(ShellCallResult::Error { message }) => Err(ShellError::Ipc(message)),
            Err(problem) => Err(
                ShellError::ShinyShell(
                    if text.as_str().is_empty() {
                        problem
                    } else {
                        text
                    },
                ),
            ),
        }
    }

    /// The signal on a line, if it is not blank.
    pub fn signal_on_line(&self, line: &str) -> (signal: Option<String>)
        ensures
            match signal {
                Some(text) => trimmed(line@).len() > 0 && text@ == trimmed(line@),
                None => trimmed(line@).len() == 0,
            },
    {
        let text: String = trim(line);
        if text.as_str().is_empty() {
            None
        } else {
            Some(text)
        }
    }

    /// Waits for the answer to a request for a region. Takes the next signal, or none once the line
    /// is closed. Answers to other requests are passed over.
    pub fn region_selector(
        &self,
        request_id: &str,
        signal: Option<RegionSelectorResult>,
    ) -> (answer: Result<Option<RegionSelectorResult>, ShellError>)
        ensures
            match signal {
                None => answer matches Err(error) && error@ == ShellErrorView::Ipc(
                    "stream closed without picker result"@,
                ),
                Some(result) => answer == Ok::<_, ShellError>(
                    if result.answers() == request_id@ {
                        Some(result)
                    } else {
                        None
                    },
                ),
            },
    {
        match signal {
            None => Err(ShellError::Ipc("stream closed without picker result".to_owned())),
            Some(result) => {
                let answers: bool = match &result {
                    RegionSelectorResult::Selected { key, .. } => same_text(
                        key.as_str(),
                        request_id,
                    ),
                    RegionSelectorResult::Cancelled { key } => same_text(key.as_str(), request_id),
                };
                if answers {
                    Ok(Some(result))
                } else {
                    Ok(None)
                }
            },
        }
    }

    /// Waits for the answer to a request to share. Takes the next signal, or none once the line is
    /// closed. Answers to other requests are passed over.
    pub fn share_picker(
        &self,
        request_id: &str,
        signal: Option<SharePickerResult>,
    ) -> (answer: Result<Option<SharePickerResult>, ShellError>)
        ensures
            match signal {
                None => answer matches Err(error) && error@ == ShellErrorView::Ipc(
                    "stream closed without picker result"@,
                ),
                Some(result) => answer == Ok::<_, ShellError>(
                    if result.answers() == request_id@ {
                        Some(result)
                    } else {
                        None
                    },
                ),
            },
    {
        match signal {
            None => Err(ShellError::Ipc("stream closed without picker result".to_owned())),
            Some(result) => {
                let answers: bool = match &result {
                    SharePickerResult::Selected { key, .. } => same_text(key.as_str(), request_id),
                    SharePickerResult::Cancelled { key } => same_text(key.as_str(), request_id),
                };
                if answers {
                    Ok(Some(result))
                } else {
                    Ok(None)
                }
            },
        }
    }
}

/// A command that failed never does so without a word.
pub proof fn law_failures_have_words(stderr: Seq<char>)
    ensures
        trimmed(failure_words(stderr)).len() > 0,
{
    law_full_lines_are_not_blank(lines_of(stderr));
    if first_full_line(lines_of(stderr)) is None {
        let words = "process failed or returned non-zero exit code"@;
        reveal_strlit("process failed or returned non-zero exit code");
        assert(!white_space(words[0]) && !white_space(words.last()));
        assert(trimmed(words) == words);
    }
}

/// The words for what went wrong with the shell say first which side it was on.
pub proof fn law_shell_errors_are_told_apart(error: ShellError, message: String)
    requires
        call_ensures(ShellError::message, (&error,), message),
    ensures
        error matches ShellError::Io(text) ==> message@ == "process error: "@ + text@,
        error matches ShellError::ShinyShell(text) ==> message@ == "shiny-shell error: "@ + text@,
        error matches ShellError::Ipc(text) ==> message@ == "ipc error: "@ + text@,
        error matches ShellError::Json(text) ==> message@ == "json error: "@ + text@,
{
}

/// A call names its target, then the method, then every parameter in order. To listen names the
/// target and then the signal.
pub proof fn law_commands_say_what_is_asked(
    shell: ShinyShell,
    target: &str,
    method_name: &str,
    parameters: Vec<String>,
    call: Vec<String>,
    signal: &str,
    listen: Vec<String>,
    i: int,
)
    requires
        call_ensures(ShinyShell::call_arguments, (&shell, target, method_name, &parameters), call),
        call_ensures(ShinyShell::listen_arguments, (&shell, target, signal), listen),
    ensures
        call@.len() == 4 + parameters@.len(),
        call@[0]@ == "ipc"@ && call@[1]@ == "call"@,
        call@[2]@ == target@ && call@[3]@ == method_name@,
        0 <= i < parameters@.len() ==> call@[4 + i]@ == parameters@[i]@,
        listen@.len() == 4,
        listen@[0]@ == "ipc"@ && listen@[1]@ == "listen"@,
        listen@[2]@ == target@ && listen@[3]@ == signal@,
{
    let called = words_of(call@);
    let listened = words_of(listen@);
    assert(called.len() == call@.len());
    assert(listened.len() == listen@.len());
    assert(words_of(parameters@).len() == parameters@.len());
    assert(called[0] == call@[0]@);
    assert(called[1] == call@[1]@);
    assert(called[2] == call@[2]@);
    assert(called[3] == call@[3]@);
    assert(listened[0] == listen@[0]@);
    assert(listened[1] == listen@[1]@);
    assert(listened[2] == listen@[2]@);
    assert(listened[3] == listen@[3]@);
    if 0 <= i < parameters@.len() {
        assert(called[4 + i] == call@[4 + i]@);
        assert(words_of(parameters@)[i] == parameters@[i]@);
    }
}

/// A command that succeeds without a word on errors replies with its output, trimmed. Any other
/// fails with the first full line of its errors, or with words of its own where there is none.
pub proof fn law_outputs_are_judged(
    shell: ShinyShell,
    success: bool,
    error_bytes: usize,
    output: &str,
    trimmed_output: String,
    errors: &str,
    line: Option<String>,
    reply: Result<String, ShellError>,
)
    requires
        call_ensures(
            ShinyShell::judge_output,
            (&shell, success, error_bytes, output, errors),
            reply,
        ),
        call_ensures(trim, (output,), trimmed_output),
        call_ensures(find_full_line, (errors,), line),
    ensures
        reply is Ok <==> success && error_bytes == 0,
        reply matches Ok(text) ==> text@ == trimmed_output@,
        reply matches Err(error) ==> (error matches ShellError::ShinyShell(words) && (
        line matches Some(l) ==> words@ == l@) && (line is None ==> words@
            == "process failed or returned non-zero exit code"@)),
{
}

/// The bytes that a command wrote are read as text, each as it stands where it is valid.
pub proof fn law_outputs_are_read(
    shell: ShinyShell,
    success: bool,
    stdout: &[u8],
    stderr: &[u8],
    reply: Result<String, ShellError>,
    output: &str,
    errors: &str,
    error_bytes: usize,
    judged: Result<String, ShellError>,
)
    requires
        call_ensures(ShinyShell::read_output, (&shell, success, stdout, stderr), reply),
        valid_utf8(stdout@) ==> output@ == decode_utf8(stdout@),
        !valid_utf8(stdout@) ==> output@ == repaired_text(stdout@),
        valid_utf8(stderr@) ==> errors@ == decode_utf8(stderr@),
        !valid_utf8(stderr@) ==> errors@ == repaired_text(stderr@),
        error_bytes == stderr@.len(),
        call_ensures(
            ShinyShell::judge_output,
            (&shell, success, error_bytes, output, errors),
            judged,
        ),
    ensures
        reply is Ok <==> success && stderr@.len() == 0,
        reply is Ok <==> judged is Ok,
        reply matches Ok(text) ==> (judged matches Ok(same) && text@ == same@),
        reply matches Err(error) ==> (error matches ShellError::ShinyShell(words) && (
        judged matches Err(fault) && (fault matches ShellError::ShinyShell(same) && words@
            == same@))),
{
}

/// The data of a reply is handed on as it is, and the message of a refusal too. A reply that could
/// not be read is told in its own words, or in those of the reader where it has none.
pub proof fn law_replies_are_taken_apart<T>(
    shell: ShinyShell,
    text: String,
    parsed: Result<ShellCallResult<T>, String>,
    data: Result<T, ShellError>,
)
    requires
        call_ensures(ShinyShell::read_reply::<T>, (&shell, text, parsed), data),
    ensures
        parsed matches Ok(reply) ==> (reply matches ShellCallResult::Data { data: value } ==> data
            == Ok::<T, ShellError>(value)),
        parsed matches Ok(reply) ==> (reply matches ShellCallResult::Error { message } ==> (
        data matches Err(error) && (error matches ShellError::Ipc(words) && words@ == message@))),
        parsed matches Err(problem) ==> (data matches Err(error) && (
        error matches ShellError::ShinyShell(words) && (text@.len() == 0 ==> words@ == problem@) && (
        text@.len() > 0 ==> words@ == text@))),
{
}

/// A line is a signal without the white space around it, unless nothing is left.
pub proof fn law_lines_are_signals(
    shell: ShinyShell,
    line: &str,
    inner: String,
    signal: Option<String>,
)
    requires
        call_ensures(ShinyShell::signal_on_line, (&shell, line), signal),
        call_ensures(trim, (line,), inner),
    ensures
        signal is None <==> inner@.len() == 0,
        signal matches Some(text) ==> text@ == inner@,
{
}

/// An answer counts where its key is that of the request, whether something was selected or not.
/// Any other is passed over, and a line that closes before is a failure.
pub proof fn law_answers_are_matched_by_key(
    shell: ShinyShell,
    request_id: &str,
    region: Option<RegionSelectorResult>,
    region_answer: Result<Option<RegionSelectorResult>, ShellError>,
    pick: Option<SharePickerResult>,
    pick_answer: Result<Option<SharePickerResult>, ShellError>,
)
    requires
        call_ensures(ShinyShell::region_selector, (&shell, request_id, region), region_answer),
        call_ensures(ShinyShell::share_picker, (&shell, request_id, pick), pick_answer),
    ensures
        region is None ==> (region_answer matches Err(error) && (
        error matches ShellError::Ipc(words) && words@ == "stream closed without picker result"@)),
        region matches Some(result) ==> {
            let key = match result {
                RegionSelectorResult::Selected { key, .. } => key@,
                RegionSelectorResult::Cancelled { key } => key@,
            };
            &&& key == request_id@ ==> region_answer == Ok::<
                Option<RegionSelectorResult>,
                ShellError,
            >(Some(result))
            &&& key != request_id@ ==> region_answer == Ok::<
                Option<RegionSelectorResult>,
                ShellError,
            >(None)
        },
        pick is None ==> (pick_answer matches Err(error) && (error matches ShellError::Ipc(words)
            && words@ == "stream closed without picker result"@)),
        pick matches Some(result) ==> {
            let key = match result {
                SharePickerResult::Selected { key, .. } => key@,
                SharePickerResult::Cancelled { key } => key@,
            };
            &&& key == request_id@ ==> pick_answer == Ok::<Option<SharePickerResult>, ShellError>(
                Some(result),
            )
            &&& key != request_id@ ==> pick_answer == Ok::<Option<SharePickerResult>, ShellError>(
                None,
            )
        },
{
}

/// Where nothing is asked for, the shell decides.
pub proof fn law_defaults_leave_it_to_the_shell(
    selector: RegionSelectorOptions,
    picker: SharePickerOptions,
)
    requires
        call_ensures(RegionSelectorOptions::default, (), selector),
        call_ensures(SharePickerOptions::default, (), picker),
    ensures
        selector.freeze is None,
        selector.hint_windows is None,
        selector.hint_layers is None,
        picker.allow_monitor is None,
        picker.allow_window is None,
        picker.allow_custom_region is None,
        picker.allow_restore_token_default is None,
        picker.dialog_parent_window_handle is None,
{
}

} // verus!
