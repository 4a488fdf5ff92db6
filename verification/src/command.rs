//! Command lines that are run, and what is read from what they print.

use vstd::prelude::*;
use vstd::utf8::{decode_utf8, valid_utf8};

use crate::text::{lemma_texts_push, text_option, text_result, texts, trim, trimmed};

verus! {

/// The text of bytes that are mostly UTF-8.
pub uninterp spec fn lossy_text(bytes: Seq<u8>) -> Seq<char>;

/// Decodes by `String::from_utf8_lossy`: bytes that are UTF-8 give the text that they
/// encode. How other bytes are cut into pieces that are replaced is not stated; the
/// result is named as a function of the bytes.
#[verifier::external_body]
fn decode_lossy(bytes: &[u8]) -> (r: String)
    ensures
        r@ == lossy_text(bytes@),
        valid_utf8(bytes@) ==> r@ == decode_utf8(bytes@),
{
    String::from_utf8_lossy(bytes).into_owned()
}

/// A command to run, and whether difftastic is asked for JSON in its environment.
#[derive(Clone, Debug, PartialEq, Eq)]
pub struct CommandLine {
    pub program: String,
    pub args: Vec<String>,
    pub json_output: bool,
}

/// What a command that ran left: its exit code, if it had one, and what it printed.
#[derive(Clone, Debug, PartialEq, Eq)]
pub struct CommandOutput {
    pub code: Option<i32>,
    pub stdout: Vec<u8>,
    pub stderr: Vec<u8>,
}

/// The command runs the program with the arguments.
pub open spec fn runs(
    command: CommandLine,
    program: Seq<char>,
    args: Seq<Seq<char>>,
    json_output: bool,
) -> bool {
    &&& command.program@ == program
    &&& texts(command.args@) =~= args
    &&& command.json_output == json_output
}

impl CommandLine {
    /// The program with no arguments.
    pub fn new(program: &str) -> (r: Self)
        ensures
            runs(r, program@, Seq::empty(), false),
    {
        let r = CommandLine { program: program.to_owned(), args: Vec::new(), json_output: false };
        proof {
            assert(texts(r.args@) =~= Seq::<Seq<char>>::empty());
        }
        r
    }

    /// One argument more.
    pub fn arg(self, arg: &str) -> (r: Self)
        ensures
            runs(r, self.program@, texts(self.args@).push(arg@), self.json_output),
    {
        broadcast use lemma_texts_push;

        let mut command = self;
        command.args.push(arg.to_owned());
        command
    }

    /// More arguments.
    pub fn args(self, args: &Vec<String>) -> (r: Self)
        ensures
            runs(r, self.program@, texts(self.args@) + texts(args@), self.json_output),
    {
        broadcast use lemma_texts_push;

        let mut command = self;
        let mut i: usize = 0;
        proof {
            assert(texts(command.args@) =~= texts(self.args@) + texts(args@).take(0));
        }
        while i < args.len()
            invariant
                i <= args@.len(),
                runs(
                    command,
                    self.program@,
                    texts(self.args@) + texts(args@).take(i as int),
                    self.json_output,
                ),
            decreases args@.len() - i,
        {
            proof {
                assert(texts(self.args@) + texts(args@).take(i + 1) =~= (texts(self.args@) + texts(
                    args@,
                ).take(i as int)).push(args@[i as int]@));
            }
            command = command.arg(args[i].as_str());
            i += 1;
        }
        proof {
            assert(texts(args@).take(args@.len() as int) =~= texts(args@));
        }
        command
    }

    /// The same command, with difftastic asked for JSON.
    pub fn with_json_output(self) -> (r: Self)
        ensures
            runs(r, self.program@, texts(self.args@), true),
    {
        CommandLine { program: self.program, args: self.args, json_output: true }
    }
}

/// The environment variables that ask difftastic for JSON.
pub fn json_environment() -> (r: Vec<(String, String)>)
    ensures
        r@.len() == 2,
        r@[0].0@ == "DFT_DISPLAY"@,
        r@[0].1@ == "json"@,
        r@[1].0@ == "DFT_UNSTABLE"@,
        r@[1].1@ == "yes"@,
{
    let mut vars: Vec<(String, String)> = Vec::new();
    vars.push(("DFT_DISPLAY".to_owned(), "json".to_owned()));
    vars.push(("DFT_UNSTABLE".to_owned(), "yes".to_owned()));
    vars
}

/// The exit code says that all went well.
pub open spec fn succeeded(output: CommandOutput) -> bool {
    output.code == Some(0i32)
}

impl CommandOutput {
    /// Whether the command succeeded.
    pub fn success(&self) -> (r: bool)
        ensures
            r == succeeded(*self),
    {
        match self.code {
            Some(code) => code == 0,
            None => false,
        }
    }

    /// What was printed to standard output.
    pub fn stdout_text(&self) -> (r: String)
        ensures
            r@ == lossy_text(self.stdout@),
            valid_utf8(self.stdout@) ==> r@ == decode_utf8(self.stdout@),
    {
        decode_lossy(self.stdout.as_slice())
    }

    /// What was printed to standard error.
    pub fn stderr_text(&self) -> (r: String)
        ensures
            r@ == lossy_text(self.stderr@),
            valid_utf8(self.stderr@) ==> r@ == decode_utf8(self.stderr@),
    {
        decode_lossy(self.stderr.as_slice())
    }
}

/// What a command printed, if it ran and succeeded.
pub open spec fn printed(output: Option<CommandOutput>) -> Option<Seq<char>> {
    match output {
        Some(output) => if succeeded(output) {
            Some(lossy_text(output.stdout@))
        } else {
            None
        },
        None => None,
    }
}

/// What a command printed, if it ran and succeeded and what it printed is UTF-8.
pub open spec fn utf8_printed(output: Option<CommandOutput>) -> Option<Seq<char>> {
    match output {
        Some(output) => if succeeded(output) && valid_utf8(output.stdout@) {
            Some(decode_utf8(output.stdout@))
        } else {
            None
        },
        None => None,
    }
}

/// The output of a command that ran and succeeded.
pub fn successful_output(output: &Option<CommandOutput>) -> (r: Option<String>)
    ensures
        text_option(r) == printed(*output),
        utf8_printed(*output) is Some ==> text_option(r) == utf8_printed(*output),
{
    match output {
        Some(output) => if output.success() {
            Some(output.stdout_text())
        } else {
            None
        },
        None => None,
    }
}

/// The output of a command that ran and succeeded, without whitespace around it.
pub fn successful_trimmed_output(output: &Option<CommandOutput>) -> (r: Option<String>)
    ensures
        text_option(r) == match printed(*output) {
            Some(text) => Some(trimmed(text)),
            None => None,
        },
        utf8_printed(*output) matches Some(text) ==> text_option(r) == Some(trimmed(text)),
{
    match successful_output(output) {
        Some(text) => Some(trim(text.as_str())),
        None => None,
    }
}

/// What a command that has to succeed printed, or why there is nothing to read: it did
/// not run, or did not succeed. `failed` is what the message calls it.
pub open spec fn required_text(
    program: Seq<char>,
    failed: Seq<char>,
    outcome: Result<CommandOutput, String>,
) -> Result<Seq<char>, Seq<char>> {
    match outcome {
        Ok(output) => if succeeded(output) {
            Ok(lossy_text(output.stdout@))
        } else {
            Err(program + " "@ + failed + " failed: "@ + lossy_text(output.stderr@))
        },
        Err(error) => Err("Failed to run "@ + program + ": "@ + error@),
    }
}

/// What a command that has to succeed gives, where what is read of it is UTF-8.
pub open spec fn utf8_required_text(
    program: Seq<char>,
    failed: Seq<char>,
    outcome: Result<CommandOutput, String>,
) -> Option<Result<Seq<char>, Seq<char>>> {
    match outcome {
        Ok(output) => if succeeded(output) && valid_utf8(output.stdout@) {
            Some(Ok(decode_utf8(output.stdout@)))
        } else if !succeeded(output) && valid_utf8(output.stderr@) {
            Some(Err(program + " "@ + failed + " failed: "@ + decode_utf8(output.stderr@)))
        } else {
            None
        },
        Err(error) => Some(Err("Failed to run "@ + program + ": "@ + error@)),
    }
}

/// The output of a command that has to succeed.
pub fn required_output(program: &str, failed: &str, outcome: &Result<CommandOutput, String>) -> (r:
    Result<String, String>)
    ensures
        text_result(r) == required_text(program@, failed@, *outcome),
        utf8_required_text(program@, failed@, *outcome) matches Some(text) ==> text_result(r)
            == text,
{
    match outcome {
        Ok(output) => if output.success() {
            Ok(output.stdout_text())
        } else {
            Err(
                program.to_owned().concat(" ").concat(failed).concat(" failed: ").concat(
                    output.stderr_text().as_str(),
                ),
            )
        },
        Err(error) => Err(
            "Failed to run ".to_owned().concat(program).concat(": ").concat(error.as_str()),
        ),
    }
}

/// A command line that runs a program with arguments is that program with these
/// arguments, all of them, in order, and no others.
pub proof fn law_command_lines_are_exact(
    command: CommandLine,
    program: Seq<char>,
    args: Seq<Seq<char>>,
    json_output: bool,
)
    ensures
        runs(command, program, args, json_output) <==> {
            &&& command.program@ == program
            &&& command.args@.len() == args.len()
            &&& forall|i: int| 0 <= i < args.len() ==> (#[trigger] command.args@[i])@ == args[i]
            &&& command.json_output == json_output
        },
{
    let given = texts(command.args@);
    assert(given.len() == command.args@.len());
    assert forall|i: int| 0 <= i < given.len() implies given[i] == (
    #[trigger] command.args@[i])@ by {}
    if command.args@.len() == args.len() && (forall|i: int|
        0 <= i < args.len() ==> (#[trigger] command.args@[i])@ == args[i]) {
        assert forall|i: int| 0 <= i < args.len() implies given[i] == args[i] by {
            assert(command.args@[i]@ == args[i]);
        }
        assert(given =~= args);
    }
}

/// What a command printed is read exactly where it ran and exited with 0, and then all of
/// it.
pub proof fn law_only_exit_code_zero_is_read(output: CommandOutput)
    ensures
        printed(None) is None,
        printed(Some(output)) is Some <==> output.code == Some(0i32),
        printed(Some(output)) matches Some(text) ==> text == lossy_text(output.stdout@),
{
}

/// A command that has to succeed gives what it printed, where it exited with 0. Else it
/// gives what it complained of, or why it did not run.
pub proof fn law_required_commands_tell_why(
    program: Seq<char>,
    failed: Seq<char>,
    output: CommandOutput,
    error: String,
)
    ensures
        output.code == Some(0i32) ==> required_text(program, failed, Ok(output)) == Ok::<
            Seq<char>,
            Seq<char>,
        >(lossy_text(output.stdout@)),
        output.code != Some(0i32) ==> required_text(program, failed, Ok(output)) == Err::<
            Seq<char>,
            Seq<char>,
        >(program + " "@ + failed + " failed: "@ + lossy_text(output.stderr@)),
        required_text(program, failed, Err(error)) == Err::<Seq<char>, Seq<char>>(
            "Failed to run "@ + program + ": "@ + error@,
        ),
{
}

/// What is printed in UTF-8 is read as the text that it encodes, of a command that exited
/// with code zero; of another one that is required, what it told is read so.
pub proof fn law_utf8_is_read_as_encoded(
    program: Seq<char>,
    failed: Seq<char>,
    output: CommandOutput,
)
    ensures
        succeeded(output) <==> output.code == Some(0i32),
        utf8_printed(None) is None,
        utf8_printed(Some(output)) is Some <==> output.code == Some(0i32) && valid_utf8(
            output.stdout@,
        ),
        utf8_required_text(program, failed, Ok(output)) is Some <==> valid_utf8(
            if output.code == Some(0i32) {
                output.stdout@
            } else {
                output.stderr@
            },
        ),
        output.code == Some(0i32) && valid_utf8(output.stdout@) ==> {
            &&& utf8_printed(Some(output)) == Some(decode_utf8(output.stdout@))
            &&& utf8_required_text(program, failed, Ok(output)) == Some(
                Ok::<Seq<char>, Seq<char>>(decode_utf8(output.stdout@)),
            )
        },
        output.code != Some(0i32) && valid_utf8(output.stderr@) ==> utf8_required_text(
            program,
            failed,
            Ok(output),
        ) == Some(
            Err::<Seq<char>, Seq<char>>(
                program + " "@ + failed + " failed: "@ + decode_utf8(output.stderr@),
            ),
        ),
{
}

} // verus!
