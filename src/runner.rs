use vstd::prelude::*;

use crate::config::{level_text, Config, ThinkingLevel};
use crate::sessions::{session_file_name, SessionManager};
use crate::patterns::{first_group, regex_group};
use crate::text::{chars_of, join_path, path_join, string_of_range, trim, trimmed};

verus! {

/// What the agent appears to be doing, judged from one line of its output.
#[derive(Debug, Clone, Copy, PartialEq, Eq, Structural)]
pub enum ActivityType {
    Thinking,
    Reading,
    Writing,
    Running,
    Searching,
    Working,
}

/// A progress report handed to the caller while a one-shot run goes on.
#[derive(Debug, Clone)]
pub struct ActivityUpdate {
    pub activity_type: ActivityType,
    pub detail: String,
    /// Seconds since the run started.
    pub elapsed: u64,
}

/// The longest command detail that a running activity reports, in characters.
pub const RUNNING_DETAIL_MAX: usize = 50;

/// A line that reads a file; group 1 is the file.
pub const READING_PATTERN: &'static str = "(?i)^(?:Reading|Read)\\s+(.+)";

/// A line that writes a file; group 1 is the file.
pub const WRITING_PATTERN: &'static str = "(?i)^(?:Writing|Wrote|Creating|Created)\\s+(.+)";

/// A line that runs a command; group 1 is the command.
pub const RUNNING_PATTERN: &'static str = "(?i)^(?:Running|Executing|>\\s*\\$)\\s*(.+)";

/// A line that searches.
pub const SEARCHING_PATTERN: &'static str = "(?i)^(Searching|Search|Looking|Finding)";

/// A line that thinks.
pub const THINKING_PATTERN: &'static str = "(?i)^(Thinking|Analyzing|Processing)";

pub open spec fn truncated(s: Seq<char>, n: int) -> Seq<char> {
    if s.len() <= n {
        s
    } else {
        s.take(n)
    }
}

/// The activity, with its detail, that an output line reports: the line is trimmed, then
/// matched against the reading, writing, running, searching and thinking patterns in turn.
pub open spec fn activity_of(line: Seq<char>) -> Option<(ActivityType, Seq<char>)> {
    let t = trim(line);
    if t.len() == 0 {
        None
    } else if regex_group(READING_PATTERN@, t) is Some {
        Some((ActivityType::Reading, regex_group(READING_PATTERN@, t)->0))
    } else if regex_group(WRITING_PATTERN@, t) is Some {
        Some((ActivityType::Writing, regex_group(WRITING_PATTERN@, t)->0))
    } else if regex_group(RUNNING_PATTERN@, t) is Some {
        Some(
            (
                ActivityType::Running,
                truncated(regex_group(RUNNING_PATTERN@, t)->0, RUNNING_DETAIL_MAX as int),
            ),
        )
    } else if regex_group(SEARCHING_PATTERN@, t) is Some {
        Some((ActivityType::Searching, "codebase"@))
    } else if regex_group(THINKING_PATTERN@, t) is Some {
        Some((ActivityType::Thinking, Seq::empty()))
    } else {
        None
    }
}

/// The view of a detected activity.
pub open spec fn activity_view(r: Option<(ActivityType, String)>) -> Option<
    (ActivityType, Seq<char>),
> {
    match r {
        Some((a, d)) => Some((a, d@)),
        None => None,
    }
}

/// Classifies one line of the agent's output: reading, writing, running, searching or
/// thinking, with a detail (the file, the command, `codebase`, or nothing); `None` for a
/// line that announces none of these.
pub fn detect_activity(line: &str) -> (r: Option<(ActivityType, String)>)
    ensures
        activity_view(r) == activity_of(line@),
{
    proof {
        reveal_strlit("");
        assert(""@ =~= Seq::<char>::empty());
    }
    let tc = trimmed(line);
    if tc.len() == 0 {
        return None;
    }
    let t = string_of_range(&tc, 0, tc.len());
    assert(t@ =~= tc@);
    let t = t.as_str();
    if let Some(d) = first_group(READING_PATTERN, t) {
        return Some((ActivityType::Reading, d));
    }
    if let Some(d) = first_group(WRITING_PATTERN, t) {
        return Some((ActivityType::Writing, d));
    }
    if let Some(d) = first_group(RUNNING_PATTERN, t) {
        let dc = chars_of(d.as_str());
        let n = if dc.len() > RUNNING_DETAIL_MAX {
            RUNNING_DETAIL_MAX
        } else {
            dc.len()
        };
        let detail = string_of_range(&dc, 0, n);
        assert(detail@ =~= truncated(d@, RUNNING_DETAIL_MAX as int));
        return Some((ActivityType::Running, detail));
    }
    if first_group(SEARCHING_PATTERN, t).is_some() {
        return Some((ActivityType::Searching, String::from_str("codebase")));
    }
    if first_group(THINKING_PATTERN, t).is_some() {
        return Some((ActivityType::Thinking, String::new()));
    }
    None
}

/// The synthetic report that the heartbeat sends while the process runs.
pub fn heartbeat_update(elapsed: u64) -> (r: ActivityUpdate)
    ensures
        r.activity_type == ActivityType::Working,
        r.detail@ == Seq::<char>::empty(),
        r.elapsed == elapsed,
{
    ActivityUpdate { activity_type: ActivityType::Working, detail: String::new(), elapsed }
}

/// What one run of the agent produced: its output, and an error where it failed.
#[derive(Debug)]
pub struct RunResult {
    pub output: String,
    pub error: Option<String>,
}

pub ghost struct RunResultView {
    pub output: Seq<char>,
    pub error: Option<Seq<char>>,
}

impl View for RunResult {
    type V = RunResultView;

    open spec fn view(&self) -> RunResultView {
        RunResultView {
            output: self.output@,
            error: match self.error {
                Some(e) => Some(e@),
                None => None,
            },
        }
    }
}

/// Extra inputs of a one-shot run: files to attach, by path.
pub struct RunPiOptions {
    pub image_paths: Vec<String>,
}

impl Default for RunPiOptions {
    fn default() -> (r: Self)
        ensures
            r.image_paths@.len() == 0,
    {
        RunPiOptions { image_paths: Vec::new() }
    }
}

/// An image found in a session log.
#[derive(Debug)]
pub struct ExtractedImage {
    pub data: Vec<u8>,
    pub mime_type: String,
}

/// How the agent's process ended, as the caller that waited on it saw it.
pub enum ProcessOutcome {
    /// It exited; `success` tells whether with status zero.
    Exited { success: bool },
    /// Waiting on it failed, with this message.
    WaitFailed(String),
    /// It ran past the deadline and was killed.
    TimedOut,
}

/// The error text of a run that was stopped at its deadline.
pub open spec fn timeout_message() -> Seq<char> {
    "Timeout: Pi took too long"@
}

pub open spec fn or_placeholder(out: Seq<char>, placeholder: Seq<char>) -> Seq<char> {
    if out.len() == 0 {
        placeholder
    } else {
        out
    }
}

/// The result of a run from how it ended and what it wrote to its two streams. A non-zero
/// exit with nothing on stderr counts as a success.
pub open spec fn run_result_of(outcome: ProcessOutcome, out: Seq<char>, err: Seq<char>) -> RunResultView {
    match outcome {
        ProcessOutcome::Exited { success } => if !success && err.len() > 0 {
            RunResultView { output: or_placeholder(out, "Error occurred"@), error: Some(err) }
        } else {
            RunResultView { output: or_placeholder(out, "(no output)"@), error: None }
        },
        ProcessOutcome::WaitFailed(e) => RunResultView {
            output: out,
            error: Some("Pi process error: "@ + e@),
        },
        ProcessOutcome::TimedOut => RunResultView { output: out, error: Some(timeout_message()) },
    }
}

/// Classifies a finished run.
pub fn finish_run(outcome: ProcessOutcome, stdout: String, stderr: String) -> (r: RunResult)
    ensures
        r@ == run_result_of(outcome, stdout@, stderr@),
{
    let out_empty = stdout.as_str().unicode_len() == 0;
    match outcome {
        ProcessOutcome::Exited { success } => {
            if !success && stderr.as_str().unicode_len() > 0 {
                let output = if out_empty {
                    String::from_str("Error occurred")
                } else {
                    stdout
                };
                RunResult { output, error: Some(stderr) }
            } else {
                let output = if out_empty {
                    String::from_str("(no output)")
                } else {
                    stdout
                };
                RunResult { output, error: None }
            }
        },
        ProcessOutcome::WaitFailed(e) => {
            let mut msg = String::from_str("Pi process error: ");
            msg.append(e.as_str());
            RunResult { output: stdout, error: Some(msg) }
        },
        ProcessOutcome::TimedOut => RunResult {
            output: stdout,
            error: Some(String::from_str("Timeout: Pi took too long")),
        },
    }
}

/// Why a one-shot run could not start.
pub enum StartFailure {
    /// The session directory could not be created, with this message.
    SessionDir(String),
    /// The agent's process could not be started, with this message.
    Spawn(String),
}

/// The result of a run that could not start: no output, and the reason.
pub fn start_failed(failure: StartFailure) -> (r: RunResult)
    ensures
        r@.output.len() == 0,
        r@.error == Some(
            match failure {
                StartFailure::SessionDir(m) => "Failed to create session dir: "@ + m@,
                StartFailure::Spawn(m) => "Failed to start Pi: "@ + m@,
            },
        ),
{
    let msg = match failure {
        StartFailure::SessionDir(m) => {
            let mut t = String::from_str("Failed to create session dir: ");
            t.append(m.as_str());
            t
        },
        StartFailure::Spawn(m) => {
            let mut t = String::from_str("Failed to start Pi: ");
            t.append(m.as_str());
            t
        },
    };
    RunResult { output: String::new(), error: Some(msg) }
}

/// Lines joined by line feeds: one between each two, none before the first or after the
/// last.
pub open spec fn newline_joined(lines: Seq<Seq<char>>) -> Seq<char>
    decreases lines.len(),
{
    if lines.len() == 0 {
        Seq::empty()
    } else if lines.len() == 1 {
        lines[0]
    } else {
        newline_joined(lines.drop_last()) + seq!['\n'] + lines.last()
    }
}

/// The text of a stream of output lines, collected as they come.
pub struct OutputText {
    text: String,
    started: bool,
    lines: Ghost<Seq<Seq<char>>>,
}

impl OutputText {
    /// The lines collected so far.
    pub closed spec fn lines(&self) -> Seq<Seq<char>> {
        self.lines@
    }

    pub closed spec fn wf(&self) -> bool {
        &&& self.text@ == newline_joined(self.lines@)
        &&& self.started == (self.lines@.len() > 0)
    }

    pub fn new() -> (r: Self)
        ensures
            r.wf(),
            r.lines() == Seq::<Seq<char>>::empty(),
    {
        OutputText { text: String::new(), started: false, lines: Ghost(Seq::empty()) }
    }

    /// Adds the next line.
    pub fn push_line(&mut self, line: &str)
        requires
            old(self).wf(),
        ensures
            final(self).wf(),
            final(self).lines() == old(self).lines().push(line@),
    {
        let ghost before = self.lines@;
        let ghost old_text = self.text@;
        if self.started {
            self.text.push('\n');
        }
        self.text.append(line);
        self.started = true;
        self.lines = Ghost(before.push(line@));
        proof {
            let now = before.push(line@);
            assert(now.drop_last() == before);
            assert(now.last() == line@);
            if before.len() == 0 {
                assert(old_text =~= Seq::<char>::empty());
                assert(self.text@ =~= line@);
                assert(now[0] == line@);
            } else {
                assert(self.text@ =~= old_text + seq!['\n'] + line@);
            }
        }
    }

    /// The lines joined by line feeds.
    pub fn into_text(self) -> (r: String)
        requires
            self.wf(),
        ensures
            r@ == newline_joined(self.lines()),
    {
        self.text
    }
}

/// The path of a tenant's canonical session file in the configured session directory.
pub fn get_session_path(config: &Config, chat_id: i64) -> (r: String)
    ensures
        r@ == path_join(config.session_dir@, session_file_name(chat_id as int)),
{
    let name = SessionManager::default_session_filename(chat_id);
    join_path(config.session_dir.as_str(), name.as_str())
}

/// The command line of a one-shot run: the session, print mode, the thinking level, one
/// `@path` per attachment, then the prompt.
pub open spec fn oneshot_arg_list(
    session_path: Seq<char>,
    level: ThinkingLevel,
    images: Seq<Seq<char>>,
    prompt: Seq<char>,
) -> Seq<Seq<char>> {
    seq!["--session"@, session_path, "--print"@, "--thinking"@, level_text(level)]
        + images.map_values(|p: Seq<char>| seq!['@'] + p) + seq![prompt]
}

pub open spec fn texts(v: Seq<String>) -> Seq<Seq<char>> {
    v.map_values(|s: String| s@)
}

pub open spec fn attachments(options: Option<RunPiOptions>) -> Seq<Seq<char>> {
    match options {
        Some(o) => texts(o.image_paths@),
        None => Seq::empty(),
    }
}

/// The arguments of a one-shot run.
pub fn oneshot_args(
    session_path: &str,
    level: ThinkingLevel,
    options: &Option<RunPiOptions>,
    prompt: &str,
) -> (r: Vec<String>)
    ensures
        texts(r@) == oneshot_arg_list(session_path@, level, attachments(*options), prompt@),
{
    let mut args: Vec<String> = Vec::new();
    args.push(String::from_str("--session"));
    args.push(String::from_str(session_path));
    args.push(String::from_str("--print"));
    args.push(String::from_str("--thinking"));
    args.push(level.to_string());
    let ghost head = texts(args@);
    let ghost images = attachments(*options);
    assert(head =~= seq!["--session"@, session_path@, "--print"@, "--thinking"@, level_text(level)]);
    if let Some(opts) = options {
        let mut i: usize = 0;
        while i < opts.image_paths.len()
            invariant
                images == texts(opts.image_paths@),
                i <= images.len(),
                texts(args@) =~= head + images.take(i as int).map_values(
                    |p: Seq<char>| seq!['@'] + p,
                ),
            decreases opts.image_paths@.len() - i,
        {
            let mut a = String::from_str("@");
            a.append(opts.image_paths[i].as_str());
            proof {
                reveal_strlit("@");
                assert("@"@ =~= seq!['@']);
                assert(a@ == seq!['@'] + images[i as int]);
            }
            let ghost before = args@;
            args.push(a);
            assert(images.take(i + 1) =~= images.take(i as int).push(images[i as int]));
            assert(texts(args@) =~= texts(before).push(a@));
            i += 1;
        }
        assert(images.take(i as int) =~= images);
    }
    let ghost mid = texts(args@);
    assert(mid =~= head + images.map_values(|p: Seq<char>| seq!['@'] + p));
    args.push(String::from_str(prompt));
    assert(texts(args@) =~= mid.push(prompt@));
    args
}

/// Relies on tokio's `JoinError`: the failure of a task that panicked or was cancelled.
#[verifier::external_type_specification]
#[verifier::external_body]
pub struct ExJoinError(tokio::task::JoinError);

/// The text a reader task collected, or nothing where the task failed.
pub fn stderr_handle_result(result: Result<String, tokio::task::JoinError>) -> (r: String)
    ensures
        r@ == match result {
            Ok(s) => s@,
            Err(_) => Seq::empty(),
        },
{
    match result {
        Ok(s) => s,
        Err(_) => String::new(),
    }
}

} // verus!
