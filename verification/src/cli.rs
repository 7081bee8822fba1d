//! rt's command line: its commands, and how `rt run --json` is recognised
//! before the command line is parsed, so that even a refused command line
//! is answered with a JSON result.
use vstd::prelude::*;
use crate::error::RtError;
use crate::run_result::{capture_of, failed, plain_error, CapturedBytes, ErrorKind, RunResult};
use crate::text::{has_prefix, starts_with, str_eq, trim, trimmed, views};

verus! {

/// A parsed rt command line.
#[derive(Debug)]
pub struct Cli {
    pub command: Command,
}

/// The commands rt offers.
#[derive(Debug)]
pub enum Command {
    /// List available tasks.
    List { json: bool },
    /// Show usage for a single task.
    Help { task: String, json: bool },
    /// Emit tool definitions derived from task metadata.
    Tools { json: bool, task: Option<String> },
    /// Run a task with its own params and options.
    Run { json: bool, task: String, args: Vec<String> },
}

/// Whether `--json` is among the words before the first `--`.
pub open spec fn json_before_separator(words: Seq<Seq<char>>) -> bool
    decreases words.len(),
{
    if words.len() == 0 || words[0] == "--"@ {
        false
    } else if words[0] == "--json"@ {
        true
    } else {
        json_before_separator(words.drop_first())
    }
}

/// Whether a word can name the task: it is not `--json` and does not begin
/// with `-`.
pub open spec fn names_task(word: Seq<char>) -> bool {
    word != "--json"@ && !has_prefix(word, "-"@)
}

/// The first word before the first `--` that can name the task.
pub open spec fn first_task_word(words: Seq<Seq<char>>) -> Option<Seq<char>>
    decreases words.len(),
{
    if words.len() == 0 || words[0] == "--"@ {
        None
    } else if names_task(words[0]) {
        Some(words[0])
    } else {
        first_task_word(words.drop_first())
    }
}

/// The words after the program name and the command.
pub open spec fn after_command(args: Seq<Seq<char>>) -> Seq<Seq<char>> {
    if args.len() >= 2 {
        args.skip(2)
    } else {
        seq![]
    }
}

/// The command line (program name first) asks for `rt run` with `--json`
/// among rt's own words.
pub open spec fn json_run_spec(args: Seq<Seq<char>>) -> bool {
    args.len() > 1 && args[1] == "run"@ && json_before_separator(after_command(args))
}

/// Whether the command line asks for `rt run --json`; `--json` may stand
/// before or after the task name, but not after `--`.
pub fn json_run_requested(args: &[String]) -> (r: bool)
    ensures
        r == json_run_spec(views(args@)),
{
    let ghost all = views(args@);
    proof {
        reveal_strlit("run");
        reveal_strlit("--");
        reveal_strlit("--json");
    }
    if args.len() < 2 {
        return false;
    }
    assert(all[1] == args@[1]@);
    if !str_eq(args[1].as_str(), "run") {
        return false;
    }
    let mut i: usize = 2;
    while i < args.len()
        invariant
            2 <= i <= args@.len(),
            all == views(args@),
            all.len() == args@.len(),
            all[1] == "run"@,
            "--"@.len() == 2,
            "--json"@.len() == 6,
            json_before_separator(after_command(all)) == json_before_separator(all.skip(i as int)),
        decreases args@.len() - i,
    {
        let word = args[i].as_str();
        assert(all.skip(i as int)[0] == word@);
        if str_eq(word, "--") {
            return false;
        }
        if str_eq(word, "--json") {
            return true;
        }
        assert(all.skip(i as int).drop_first() =~= all.skip(i + 1));
        i = i + 1;
    }
    assert(all.skip(i as int).len() == 0);
    false
}

/// The task name of a `rt run` command line: the first of rt's own words
/// that can name a task, or empty when there is none.
pub fn run_task_name(args: &[String]) -> (r: String)
    ensures
        r@ == match first_task_word(after_command(views(args@))) {
            Some(w) => w,
            None => Seq::<char>::empty(),
        },
{
    let ghost all = views(args@);
    proof {
        reveal_strlit("-");
        reveal_strlit("--");
        reveal_strlit("--json");
    }
    if args.len() < 2 {
        return String::new();
    }
    let mut i: usize = 2;
    while i < args.len()
        invariant
            2 <= i <= args@.len(),
            all == views(args@),
            all.len() == args@.len(),
            "-"@.len() == 1,
            "--"@.len() == 2,
            "--"@[0] == '-',
            first_task_word(after_command(all)) == first_task_word(all.skip(i as int)),
        decreases args@.len() - i,
    {
        let word = args[i].as_str();
        assert(all.skip(i as int)[0] == word@);
        if str_eq(word, "--") {
            return String::new();
        }
        if !str_eq(word, "--json") && !starts_with(word, "-") {
            return String::from_str(word);
        }
        assert(all.skip(i as int).drop_first() =~= all.skip(i + 1));
        i = i + 1;
    }
    assert(all.skip(i as int).len() == 0);
    String::new()
}

/// The JSON result for a command line that could not be parsed: owed when
/// it asks for `rt run --json` and the parser failed (rather than printing
/// help or the version); the usage error carries the parser's message
/// without surrounding white space, and names the task word, if any.
pub fn parse_failure_result(args: &[String], message: &str, parser_exit_code: i32) -> (r: Option<RunResult>)
    ensures
        r is Some <==> (json_run_spec(views(args@)) && parser_exit_code != 0),
        r matches Some(result) ==> failed(
            result,
            match first_task_word(after_command(views(args@))) {
                Some(w) => w,
                None => Seq::<char>::empty(),
            },
            2,
            plain_error(ErrorKind::Usage, trimmed(message@)),
            capture_of(Seq::empty()),
            capture_of(Seq::empty()),
            Seq::empty(),
        ),
{
    if parser_exit_code != 0 && json_run_requested(args) {
        let task = run_task_name(args);
        let error = RtError::Usage(trim(message));
        Some(RunResult::error(task.as_str(), error, CapturedBytes::empty(), CapturedBytes::empty(), Vec::new()))
    } else {
        None
    }
}

} // verus!
