//! Resuming a thread: the command that does it, and the steps around it.

use crate::paths::{exec_program, path_view, program_to_execute, seen_from};
use crate::session::Thread;
use crate::shell::{
    command_in, law_command_reads_back, none_empty, resume_shell_command, shell_reading,
    word_tokens, ShellToken,
};
use crate::text::{
    decimal, decimal_text, join_texts, joined, law_joining_in_stretches, slice_view, view_of, views,
};
use vstd::prelude::*;
use vstd::utf8::encode_utf8;

verus! {

broadcast use vstd::string::group_string_axioms;

// ---------------------------------------------------------------------------
// The command
// ---------------------------------------------------------------------------

/// The prompt that the words of a command line make: the words with a blank
/// between each two, or none where that is empty.
pub open spec fn prompt_of(words: Seq<Seq<char>>) -> Option<Seq<char>> {
    let text = joined(words, " "@);
    if text.len() == 0 {
        None
    } else {
        Some(text)
    }
}

/// The prompt that the words of a command line make.
pub fn join_prompt(prompt: Vec<String>) -> (r: Option<String>)
    ensures
        view_of(r) == prompt_of(views(prompt@)),
{
    let text = join_texts(prompt.as_slice(), " ");
    if text.as_str().is_empty() {
        None
    } else {
        Some(text)
    }
}

/// The command that resumes a thread in its working directory, with a prompt
/// where there is one.
pub open spec fn resume_command(
    codex_bin: Seq<char>,
    thread: Thread,
    prompt: Option<Seq<char>>,
) -> Seq<Seq<char>> {
    let command = seq![codex_bin, "resume"@, thread.id@, "--cd"@, thread.cwd@];
    match prompt {
        Some(text) => command.push(text),
        None => command,
    }
}

/// The command that resumes `thread`.
pub fn resume_argv(codex_bin: &str, thread: &Thread, prompt: Option<&str>) -> (r: Vec<String>)
    ensures
        views(r@) == resume_command(codex_bin@, *thread, slice_view(prompt)),
{
    let mut argv: Vec<String> = Vec::new();
    argv.push(codex_bin.to_string());
    argv.push("resume".to_string());
    argv.push(thread.id.clone());
    argv.push("--cd".to_string());
    argv.push(thread.cwd.clone());
    if let Some(text) = prompt {
        argv.push(text.to_string());
    }
    assert(views(argv@) =~= resume_command(codex_bin@, *thread, slice_view(prompt)));
    argv
}

// ---------------------------------------------------------------------------
// Execution
// ---------------------------------------------------------------------------

/// Why a command cannot be executed in a directory.
#[derive(Debug)]
pub enum ResumeError {
    /// Nothing is known of the directory.
    UnreadableCwd { cwd: String },
    /// What is there is no directory.
    NotDirectory { cwd: String },
    /// There is no program in the command.
    EmptyCommand,
    /// The current directory could not be read, for this reason.
    UnreadableCurrentDir { reason: String },
    /// The program could not be executed in the directory.
    NotExecuted { cwd: String },
}

/// A `ResumeError` with its texts as sequences of characters.
pub enum ResumeErrorView {
    UnreadableCwd { cwd: Seq<char> },
    NotDirectory { cwd: Seq<char> },
    EmptyCommand,
    UnreadableCurrentDir { reason: Seq<char> },
    NotExecuted { cwd: Seq<char> },
}

impl View for ResumeError {
    type V = ResumeErrorView;

    open spec fn view(&self) -> ResumeErrorView {
        match *self {
            ResumeError::UnreadableCwd { cwd } => ResumeErrorView::UnreadableCwd { cwd: cwd@ },
            ResumeError::NotDirectory { cwd } => ResumeErrorView::NotDirectory { cwd: cwd@ },
            ResumeError::EmptyCommand => ResumeErrorView::EmptyCommand,
            ResumeError::UnreadableCurrentDir { reason } => ResumeErrorView::UnreadableCurrentDir {
                reason: reason@,
            },
            ResumeError::NotExecuted { cwd } => ResumeErrorView::NotExecuted { cwd: cwd@ },
        }
    }
}

/// What is said of an error.
pub open spec fn resume_error_text(error: ResumeErrorView) -> Seq<char> {
    match error {
        ResumeErrorView::UnreadableCwd { cwd } => "stat resume cwd "@ + cwd,
        ResumeErrorView::NotDirectory { cwd } => "resume cwd "@ + cwd + " is not a directory"@,
        ResumeErrorView::EmptyCommand => "empty argv"@,
        ResumeErrorView::UnreadableCurrentDir { reason } => reason,
        ResumeErrorView::NotExecuted { cwd } => "exec codex resume from cwd "@ + cwd,
    }
}

impl ResumeError {
    /// What is said of the error.
    pub fn message(&self) -> (r: String)
        ensures
            r@ == resume_error_text(self@),
    {
        match self {
            ResumeError::UnreadableCwd { cwd } => {
                let mut r = "stat resume cwd ".to_string();
                r.append(cwd.as_str());
                r
            },
            ResumeError::NotDirectory { cwd } => {
                let mut r = "resume cwd ".to_string();
                r.append(cwd.as_str());
                r.append(" is not a directory");
                r
            },
            ResumeError::EmptyCommand => "empty argv".to_string(),
            ResumeError::UnreadableCurrentDir { reason } => reason.clone(),
            ResumeError::NotExecuted { cwd } => {
                let mut r = "exec codex resume from cwd ".to_string();
                r.append(cwd.as_str());
                r
            },
        }
    }
}

/// Whether a command can be executed in `cwd`, given whether it is a directory,
/// or nothing where that could not be found out.
pub open spec fn cwd_check(cwd: Seq<char>, is_dir: Option<bool>) -> Result<(), ResumeErrorView> {
    match is_dir {
        Some(true) => Ok(()),
        Some(false) => Err(ResumeErrorView::NotDirectory { cwd }),
        None => Err(ResumeErrorView::UnreadableCwd { cwd }),
    }
}

/// Whether a command can be executed in `cwd`.
pub fn validate_resume_cwd(cwd: &str, is_dir: Option<bool>) -> (r: Result<(), ResumeError>)
    ensures
        match r {
            Ok(_) => cwd_check(cwd@, is_dir) is Ok,
            Err(error) => cwd_check(cwd@, is_dir) == Err::<(), ResumeErrorView>(error@),
        },
{
    match is_dir {
        Some(true) => Ok(()),
        Some(false) => Err(ResumeError::NotDirectory { cwd: cwd.to_string() }),
        None => Err(ResumeError::UnreadableCwd { cwd: cwd.to_string() }),
    }
}

/// A program, its arguments, and the directory to execute it in, which is also
/// what it finds as `PWD` in its environment.
#[derive(Debug)]
pub struct ExecPlan {
    pub program: Vec<u8>,
    pub args: Vec<String>,
    pub cwd: String,
}

/// An `ExecPlan` as sequences.
pub struct ExecPlanView {
    pub program: Seq<u8>,
    pub args: Seq<Seq<char>>,
    pub cwd: Seq<char>,
}

impl View for ExecPlan {
    type V = ExecPlanView;

    open spec fn view(&self) -> ExecPlanView {
        ExecPlanView { program: self.program@, args: views(self.args@), cwd: self.cwd@ }
    }
}

/// How a command is executed in a directory. The directory is checked first; the
/// first word of the command is the program.
pub open spec fn execution(
    argv: Seq<Seq<char>>,
    cwd: Seq<char>,
    is_dir: Option<bool>,
    current_dir: Result<Seq<u8>, Seq<char>>,
) -> Result<ExecPlanView, ResumeErrorView> {
    match cwd_check(cwd, is_dir) {
        Err(error) => Err(error),
        Ok(_) => if argv.len() == 0 {
            Err(ResumeErrorView::EmptyCommand)
        } else {
            match program_to_execute(argv[0], current_dir) {
                Ok(program) => Ok(ExecPlanView { program, args: argv.drop_first(), cwd }),
                Err(reason) => Err(ResumeErrorView::UnreadableCurrentDir { reason }),
            }
        },
    }
}

/// How to execute `argv` in `cwd`. `current_dir` is not looked at unless the
/// program is given by a path that depends on it.
pub fn exec_resume(
    argv: Vec<String>,
    cwd: &str,
    is_dir: Option<bool>,
    current_dir: Result<Vec<u8>, String>,
) -> (r: Result<ExecPlan, ResumeError>)
    ensures
        match r {
            Ok(plan) => execution(views(argv@), cwd@, is_dir, path_view(current_dir)) == Ok::<
                ExecPlanView,
                ResumeErrorView,
            >(plan@),
            Err(error) => execution(views(argv@), cwd@, is_dir, path_view(current_dir)) == Err::<
                ExecPlanView,
                ResumeErrorView,
            >(error@),
        },
{
    match validate_resume_cwd(cwd, is_dir) {
        Ok(_) => {},
        Err(error) => {
            return Err(error);
        },
    }
    if argv.len() == 0 {
        return Err(ResumeError::EmptyCommand);
    }
    let program = match exec_program(argv[0].as_str(), current_dir) {
        Ok(program) => program,
        Err(reason) => {
            return Err(ResumeError::UnreadableCurrentDir { reason });
        },
    };
    let mut args: Vec<String> = Vec::new();
    let mut i: usize = 1;
    while i < argv.len()
        invariant
            1 <= i <= argv@.len(),
            args@ == argv@.subrange(1, i as int),
        decreases argv@.len() - i,
    {
        args.push(argv[i].clone());
        assert(args@ =~= argv@.subrange(1, i + 1));
        i += 1;
    }
    assert(views(args@) =~= views(argv@).drop_first());
    Ok(ExecPlan { program, args, cwd: cwd.to_string() })
}

// ---------------------------------------------------------------------------
// The steps
// ---------------------------------------------------------------------------

/// A step on the way to a resumed thread. A step that fails ends the way.
#[derive(Debug)]
pub enum Step {
    /// Print a line.
    Print(String),
    /// See to it that a command can be executed in this directory.
    CheckCwd(String),
    /// End the process.
    Terminate(u32),
    /// Execute the command in the directory, in place of this process.
    Execute { argv: Vec<String>, cwd: String },
}

/// A `Step` with its texts as sequences of characters.
pub enum StepView {
    Print(Seq<char>),
    CheckCwd(Seq<char>),
    Terminate(u32),
    Execute { argv: Seq<Seq<char>>, cwd: Seq<char> },
}

impl View for Step {
    type V = StepView;

    open spec fn view(&self) -> StepView {
        match *self {
            Step::Print(line) => StepView::Print(line@),
            Step::CheckCwd(cwd) => StepView::CheckCwd(cwd@),
            Step::Terminate(pid) => StepView::Terminate(pid),
            Step::Execute { argv, cwd } => StepView::Execute { argv: views(argv@), cwd: cwd@ },
        }
    }
}

/// The views of a list of steps.
pub open spec fn step_views(list: Seq<Step>) -> Seq<StepView> {
    list.map_values(|s: Step| s@)
}

/// How a thread is resumed: its command is executed in its working directory, or
/// only shown.
pub open spec fn steps_to_continue(
    codex_bin: Seq<char>,
    thread: Thread,
    prompt: Option<Seq<char>>,
    dry_run: bool,
) -> Seq<StepView> {
    let argv = resume_command(codex_bin, thread, prompt);
    if dry_run {
        seq![StepView::Print(command_in(argv, thread.cwd@))]
    } else {
        seq![StepView::Execute { argv, cwd: thread.cwd@ }]
    }
}

/// How a running session is taken over: once its thread's working directory is
/// found to be usable the process is ended, and then the thread is resumed; or
/// what would be done is only shown.
pub open spec fn steps_to_take_over(
    codex_bin: Seq<char>,
    pid: u32,
    thread: Thread,
    prompt: Option<Seq<char>>,
    dry_run: bool,
) -> Seq<StepView> {
    let argv = resume_command(codex_bin, thread, prompt);
    if dry_run {
        seq![
            StepView::Print("kill "@ + decimal(pid as nat)),
            StepView::Print(command_in(argv, thread.cwd@)),
        ]
    } else {
        seq![
            StepView::CheckCwd(thread.cwd@),
            StepView::Terminate(pid),
            StepView::Execute { argv, cwd: thread.cwd@ },
        ]
    }
}

/// How `thread` is resumed.
pub fn continue_steps(
    codex_bin: &str,
    thread: &Thread,
    prompt: Option<&str>,
    dry_run: bool,
) -> (r: Vec<Step>)
    ensures
        step_views(r@) == steps_to_continue(codex_bin@, *thread, slice_view(prompt), dry_run),
{
    let argv = resume_argv(codex_bin, thread, prompt);
    let mut steps: Vec<Step> = Vec::new();
    if dry_run {
        steps.push(Step::Print(resume_shell_command(argv.as_slice(), thread.cwd.as_str())));
    } else {
        steps.push(Step::Execute { argv, cwd: thread.cwd.clone() });
    }
    assert(step_views(steps@) =~= steps_to_continue(
        codex_bin@,
        *thread,
        slice_view(prompt),
        dry_run,
    ));
    steps
}

/// How the session of process `pid` with `thread` is taken over.
pub fn takeover_steps(
    codex_bin: &str,
    pid: u32,
    thread: &Thread,
    prompt: Option<&str>,
    dry_run: bool,
) -> (r: Vec<Step>)
    ensures
        step_views(r@) == steps_to_take_over(
            codex_bin@,
            pid,
            *thread,
            slice_view(prompt),
            dry_run,
        ),
{
    let argv = resume_argv(codex_bin, thread, prompt);
    let mut steps: Vec<Step> = Vec::new();
    if dry_run {
        let mut line = "kill ".to_string();
        let number = decimal_text(pid as u64);
        line.append(number.as_str());
        steps.push(Step::Print(line));
        steps.push(Step::Print(resume_shell_command(argv.as_slice(), thread.cwd.as_str())));
    } else {
        steps.push(Step::CheckCwd(thread.cwd.clone()));
        steps.push(Step::Terminate(pid));
        steps.push(Step::Execute { argv, cwd: thread.cwd.clone() });
    }
    assert(step_views(steps@) =~= steps_to_take_over(
        codex_bin@,
        pid,
        *thread,
        slice_view(prompt),
        dry_run,
    ));
    steps
}

// ---------------------------------------------------------------------------
// Laws
// ---------------------------------------------------------------------------

/// A dry run does nothing but print.
pub proof fn law_dry_run_only_prints(
    codex_bin: Seq<char>,
    pid: u32,
    thread: Thread,
    prompt: Option<Seq<char>>,
    i: int,
)
    ensures
        0 <= i < steps_to_continue(codex_bin, thread, prompt, true).len() ==> steps_to_continue(
            codex_bin,
            thread,
            prompt,
            true,
        )[i] is Print,
        0 <= i < steps_to_take_over(codex_bin, pid, thread, prompt, true).len()
            ==> steps_to_take_over(codex_bin, pid, thread, prompt, true)[i] is Print,
{
}

/// A takeover ends no process but the one it was asked to, only after the check
/// of the working directory in which the thread is then resumed, and resumes it
/// as continuing it would.
pub proof fn law_takeover_checks_first(
    codex_bin: Seq<char>,
    pid: u32,
    thread: Thread,
    prompt: Option<Seq<char>>,
    i: int,
    other: u32,
)
    requires
        0 <= i < steps_to_take_over(codex_bin, pid, thread, prompt, false).len(),
        steps_to_take_over(codex_bin, pid, thread, prompt, false)[i] == StepView::Terminate(other),
    ensures
        other == pid,
        exists|j: int|
            0 <= j < i && #[trigger] steps_to_take_over(
                codex_bin,
                pid,
                thread,
                prompt,
                false,
            )[j] == StepView::CheckCwd(thread.cwd@),
        steps_to_take_over(codex_bin, pid, thread, prompt, false).skip(i + 1)
            == steps_to_continue(codex_bin, thread, prompt, false),
{
    let steps = steps_to_take_over(codex_bin, pid, thread, prompt, false);
    assert(steps[0] == StepView::CheckCwd(thread.cwd@));
    assert(i == 1);
    assert(steps.skip(2) =~= steps_to_continue(codex_bin, thread, prompt, false));
}

/// What a dry run shows reads as what a run does: a shell reads the line as the
/// words `cd` and the directory in which the command would be executed, then the
/// operator `&&`, then the words of that command, as long as nothing in it is
/// empty. What the words mean to the shell is not considered.
pub proof fn law_preview_reads_as_what_runs(
    codex_bin: Seq<char>,
    thread: Thread,
    prompt: Option<Seq<char>>,
)
    requires
        codex_bin.len() > 0,
        thread.id@.len() > 0,
        thread.cwd@.len() > 0,
        prompt matches Some(text) ==> text.len() > 0,
    ensures
        steps_to_continue(codex_bin, thread, prompt, true)[0] matches StepView::Print(line)
            && steps_to_continue(codex_bin, thread, prompt, false)[0] matches StepView::Execute {
            argv,
            cwd,
        } && shell_reading(line, false, None) == Some(
            seq![ShellToken::Word("cd"@), ShellToken::Word(cwd), ShellToken::AndIf]
                + word_tokens(argv),
        ),
{
    let argv = resume_command(codex_bin, thread, prompt);
    reveal_strlit("resume");
    reveal_strlit("--cd");
    assert(none_empty(argv));
    law_command_reads_back(argv, thread.cwd@);
}

/// A prompt given on a command line is never empty, so that a dry run can show
/// it.
pub proof fn law_prompt_is_never_empty(words: Seq<Seq<char>>)
    ensures
        prompt_of(words) matches Some(text) ==> text.len() > 0,
{
}

/// The command that resumes a thread names the program, `resume`, the id of the
/// thread, `--cd` and its working directory, in this order, then the prompt where
/// there is one, whole and as the last word, and nothing else.
pub proof fn law_words_of_the_command(
    codex_bin: Seq<char>,
    thread: Thread,
    prompt: Option<Seq<char>>,
)
    ensures
        ({
            let argv = resume_command(codex_bin, thread, prompt);
            &&& argv.len() == if prompt is Some {
                6int
            } else {
                5int
            }
            &&& argv[0] == codex_bin
            &&& argv[1] == "resume"@
            &&& argv[2] == thread.id@
            &&& argv[3] == "--cd"@
            &&& argv[4] == thread.cwd@
            &&& prompt matches Some(text) ==> argv[5] == text
        }),
{
}

/// The prompt is all words of the command line with one blank between each two,
/// and there is none exactly where there is no word or a single empty one.
pub proof fn law_prompt_holds_all_words(words: Seq<Seq<char>>, word: Seq<char>)
    ensures
        prompt_of(words) is None <==> words.len() == 0 || words.len() == 1 && words[0].len() == 0,
        word.len() > 0 ==> prompt_of(seq![word]) == Some(word),
        words.len() > 0 ==> prompt_of(words.push(word)) == Some(
            (match prompt_of(words) {
                Some(text) => text,
                None => Seq::empty(),
            }) + seq![' '] + word,
        ),
{
    reveal_strlit(" ");
    assert(" "@ =~= seq![' ']);
    law_joining_in_stretches(words, seq![word], word, " "@);
    assert(words.push(word) =~= words + seq![word]);
    if words.len() == 1 {
        assert(joined(words, " "@) == words[0]);
    }
    if words.len() > 0 && joined(words, " "@).len() == 0 {
        assert(joined(words, " "@) =~= Seq::empty());
    }
}

/// A command is executed in a directory only: where it is none, or nothing is
/// known of it, that is said of it.
pub proof fn law_only_directories_are_usable(cwd: Seq<char>)
    ensures
        cwd_check(cwd, Some(true)) is Ok,
        cwd_check(cwd, Some(false)) matches Err(error) && resume_error_text(error) == "resume cwd "@
            + cwd + " is not a directory"@,
        cwd_check(cwd, None) matches Err(error) && resume_error_text(error) == "stat resume cwd "@
            + cwd,
{
}

/// Where a command is executed, the program and its arguments are all the words
/// of the command in their order, in exactly the directory that was asked for.
pub proof fn law_execution_keeps_all_words(
    argv: Seq<Seq<char>>,
    cwd: Seq<char>,
    is_dir: Option<bool>,
    current_dir: Result<Seq<u8>, Seq<char>>,
)
    ensures
        execution(argv, cwd, is_dir, current_dir) matches Ok(plan) ==> {
            &&& is_dir == Some(true)
            &&& plan.cwd == cwd
            &&& plan.args.len() + 1 == argv.len()
            &&& forall|i: int|
                0 <= i < plan.args.len() ==> #[trigger] plan.args[i] == argv[i + 1]
            &&& Ok::<Seq<u8>, Seq<char>>(plan.program) == program_to_execute(argv[0], current_dir)
            &&& !argv[0].contains('/') ==> plan.program == encode_utf8(argv[0])
            &&& plan.program != encode_utf8(argv[0]) ==> (current_dir matches Ok(dir) && plan.program
                == seen_from(dir, encode_utf8(argv[0])))
        },
{
}

/// A command that has a program is executed wherever its directory is usable,
/// unless the program has to be taken from a current directory that is not known.
/// Each failure is told apart by what is said of it.
pub proof fn law_execution_succeeds_or_says_why(
    argv: Seq<Seq<char>>,
    cwd: Seq<char>,
    dir: Seq<u8>,
    reason: Seq<char>,
    current_dir: Result<Seq<u8>, Seq<char>>,
)
    ensures
        argv.len() > 0 ==> execution(argv, cwd, Some(true), Ok(dir)) is Ok,
        argv.len() > 0 && !(argv[0].contains('/') && argv[0][0] != '/') ==> execution(
            argv,
            cwd,
            Some(true),
            Err(reason),
        ) is Ok,
        argv.len() > 0 && argv[0].contains('/') && argv[0][0] != '/' ==> (execution(
            argv,
            cwd,
            Some(true),
            Err(reason),
        ) matches Err(error) && resume_error_text(error) == reason),
        argv.len() == 0 ==> (execution(argv, cwd, Some(true), current_dir) matches Err(error)
            && resume_error_text(error) == "empty argv"@),
        execution(argv, cwd, Some(false), current_dir) matches Err(error) && resume_error_text(error)
            == "resume cwd "@ + cwd + " is not a directory"@,
        execution(argv, cwd, None, current_dir) matches Err(error) && resume_error_text(error)
            == "stat resume cwd "@ + cwd,
{
}

/// Continuing a thread is one step and taking a session over three: the check of
/// the thread's working directory, the end of the process, and the step that
/// continuing takes, which executes the command of the thread in its directory.
/// As dry runs both print what they would do, one line for each.
pub proof fn law_steps_in_turn(
    codex_bin: Seq<char>,
    pid: u32,
    thread: Thread,
    prompt: Option<Seq<char>>,
)
    ensures
        ({
            let run = steps_to_continue(codex_bin, thread, prompt, false);
            let dry = steps_to_continue(codex_bin, thread, prompt, true);
            let takeover = steps_to_take_over(codex_bin, pid, thread, prompt, false);
            let dry_takeover = steps_to_take_over(codex_bin, pid, thread, prompt, true);
            &&& run.len() == 1
            &&& run[0] matches StepView::Execute { argv, cwd } && cwd == thread.cwd@ && argv.len()
                == (if prompt is Some {
                6int
            } else {
                5int
            }) && argv[0] == codex_bin && argv[1] == "resume"@ && argv[2] == thread.id@ && argv[3]
                == "--cd"@ && argv[4] == thread.cwd@ && (prompt matches Some(text) ==> argv[5]
                == text) && dry == seq![StepView::Print(command_in(argv, cwd))]
            &&& takeover == seq![StepView::CheckCwd(thread.cwd@), StepView::Terminate(pid), run[0]]
            &&& dry_takeover == seq![StepView::Print("kill "@ + decimal(pid as nat)), dry[0]]
        }),
{
    let run = steps_to_continue(codex_bin, thread, prompt, false);
    let dry = steps_to_continue(codex_bin, thread, prompt, true);
    assert(steps_to_take_over(codex_bin, pid, thread, prompt, false) =~= seq![
        StepView::CheckCwd(thread.cwd@),
        StepView::Terminate(pid),
        run[0],
    ]);
    assert(steps_to_take_over(codex_bin, pid, thread, prompt, true) =~= seq![
        StepView::Print("kill "@ + decimal(pid as nat)),
        dry[0],
    ]);
}

/// A program that could not be executed is told with the directory that it was to
/// be executed in.
pub proof fn law_failed_execution_is_told(cwd: Seq<char>, error: ResumeError)
    ensures
        error matches ResumeError::NotExecuted { cwd: place } && place@ == cwd ==> resume_error_text(
            error@,
        ) == "exec codex resume from cwd "@ + cwd,
{
}

} // verus!
