use vstd::prelude::*;

use crate::text::{chars_of, lemma_space_run_bounds, skip_spaces, space_run, string_of_range};

verus! {

/// The longest message the chat platform accepts, in characters.
pub const MAX_MESSAGE_LENGTH: usize = 4096;

/// The largest position below `n` where `s` holds `c`, or 0 where there is none.
pub open spec fn last_pos(s: Seq<char>, c: char, n: int) -> int
    decreases n,
{
    if n <= 0 {
        0
    } else if s[n - 1] == c {
        n - 1
    } else {
        last_pos(s, c, n - 1)
    }
}

proof fn lemma_last_pos_bounds(s: Seq<char>, c: char, n: int)
    ensures
        0 <= last_pos(s, c, n),
        n > 0 ==> last_pos(s, c, n) < n,
    decreases n,
{
    if n > 0 && s[n - 1] != c {
        lemma_last_pos_bounds(s, c, n - 1);
    }
}

/// Where a chunk of an over-long text ends: at the last line break of the first
/// `MAX_MESSAGE_LENGTH` characters if that lies in their second half, else at the last
/// space if that does, else after exactly `MAX_MESSAGE_LENGTH` characters.
pub open spec fn split_point(rem: Seq<char>) -> int {
    let max = MAX_MESSAGE_LENGTH as int;
    let nl = last_pos(rem, '\n', max);
    if nl != 0 && nl >= max / 2 {
        nl
    } else {
        let sp = last_pos(rem, ' ', max);
        if sp != 0 && sp >= max / 2 {
            sp
        } else {
            max
        }
    }
}

proof fn lemma_split_point_bounds(rem: Seq<char>)
    requires
        rem.len() > MAX_MESSAGE_LENGTH,
    ensures
        (MAX_MESSAGE_LENGTH / 2) as int <= split_point(rem) <= MAX_MESSAGE_LENGTH as int,
{
    lemma_last_pos_bounds(rem, '\n', MAX_MESSAGE_LENGTH as int);
    lemma_last_pos_bounds(rem, ' ', MAX_MESSAGE_LENGTH as int);
}

/// The chunks of `rem`: each cut at its split point, leading whitespace of the rest dropped.
pub open spec fn chunks_of(rem: Seq<char>) -> Seq<Seq<char>>
    decreases rem.len(),
{
    if rem.len() == 0 {
        Seq::empty()
    } else if rem.len() <= MAX_MESSAGE_LENGTH {
        seq![rem]
    } else {
        let k = split_point(rem);
        let rest = rem.skip(k);
        let gap = space_run(rest, 0);
        if 0 < k <= rem.len() && 0 <= gap <= rest.len() {
            seq![rem.take(k)] + chunks_of(rest.skip(gap))
        } else {
            Seq::empty()
        }
    }
}

/// A text cut into messages the chat platform accepts; a short one (the empty one too)
/// stays whole.
pub open spec fn message_chunks(text: Seq<char>) -> Seq<Seq<char>> {
    if text.len() <= MAX_MESSAGE_LENGTH {
        seq![text]
    } else {
        chunks_of(text)
    }
}

/// The largest position `k` below `n` where `cs[from + k]` is `c`, or 0.
fn last_pos_in(cs: &Vec<char>, from: usize, c: char, n: usize) -> (r: usize)
    requires
        from + n <= cs.len(),
    ensures
        r == last_pos(cs@.skip(from as int), c, n as int),
{
    let ghost s = cs@.skip(from as int);
    let mut k = n;
    while k > 0
        invariant
            from + n <= cs.len(),
            s == cs@.skip(from as int),
            k <= n,
            last_pos(s, c, n as int) == last_pos(s, c, k as int),
        decreases k,
    {
        if cs[from + (k - 1)] == c {
            return k - 1;
        }
        k -= 1;
    }
    0
}

/// Cuts a text into messages no longer than `MAX_MESSAGE_LENGTH` characters, preferring a
/// line break, then a space, in the second half of each window.
pub fn split_message(text: &str) -> (r: Vec<String>)
    ensures
        r@.map_values(|s: String| s@) == message_chunks(text@),
{
    let cs = chars_of(text);
    if cs.len() <= MAX_MESSAGE_LENGTH {
        let mut v: Vec<String> = Vec::new();
        v.push(String::from_str(text));
        assert(v@.map_values(|s: String| s@) =~= seq![text@]);
        return v;
    }
    let mut chunks: Vec<String> = Vec::new();
    let mut pos: usize = 0;
    assert(cs@.skip(0) =~= cs@);
    assert(chunks@.map_values(|s: String| s@) + chunks_of(cs@) =~= chunks_of(cs@));
    while pos < cs.len()
        invariant
            cs@ == text@,
            pos <= cs@.len(),
            chunks@.map_values(|s: String| s@) + chunks_of(cs@.skip(pos as int)) == chunks_of(
                text@,
            ),
        decreases cs@.len() - pos,
    {
        let ghost rem = cs@.skip(pos as int);
        let ghost before = chunks@;
        if cs.len() - pos <= MAX_MESSAGE_LENGTH {
            let last = string_of_range(&cs, pos, cs.len());
            chunks.push(last);
            assert(last@ =~= rem);
            assert(chunks@.map_values(|s: String| s@) =~= before.map_values(|s: String| s@).push(
                rem,
            ));
            assert(cs@.skip(cs@.len() as int) =~= Seq::<char>::empty());
            assert(chunks_of(rem) == seq![rem]);
            pos = cs.len();
            assert(chunks@.map_values(|s: String| s@) + chunks_of(cs@.skip(pos as int))
                =~= before.map_values(|s: String| s@) + chunks_of(rem));
        } else {
            proof {
                lemma_split_point_bounds(rem);
            }
            let nl = last_pos_in(&cs, pos, '\n', MAX_MESSAGE_LENGTH);
            let mut k = nl;
            if nl == 0 || nl < MAX_MESSAGE_LENGTH / 2 {
                k = last_pos_in(&cs, pos, ' ', MAX_MESSAGE_LENGTH);
                if k == 0 || k < MAX_MESSAGE_LENGTH / 2 {
                    k = MAX_MESSAGE_LENGTH;
                }
            }
            assert(k == split_point(rem));
            let piece = string_of_range(&cs, pos, pos + k);
            chunks.push(piece);
            let next = skip_spaces(&cs, pos + k);
            proof {
                lemma_space_run_bounds(cs@, (pos + k) as int);
                let rest = rem.skip(k as int);
                assert(rest =~= cs@.skip((pos + k) as int));
                lemma_space_run_shift(cs@, (pos + k) as int, 0);
                lemma_space_run_bounds(rest, 0);
                assert(rest.skip(space_run(rest, 0)) =~= cs@.skip(next as int));
                assert(piece@ =~= rem.take(k as int));
                assert(chunks_of(rem) == seq![rem.take(k as int)] + chunks_of(
                    rest.skip(space_run(rest, 0)),
                ));
                assert(chunks@.map_values(|s: String| s@) =~= before.map_values(|s: String| s@).push(
                    rem.take(k as int),
                ));
                assert(chunks@.map_values(|s: String| s@) + chunks_of(cs@.skip(next as int))
                    =~= before.map_values(|s: String| s@) + chunks_of(rem));
            }
            pos = next;
        }
    }
    assert(cs@.skip(pos as int) =~= Seq::<char>::empty());
    assert(chunks@.map_values(|s: String| s@) + Seq::<Seq<char>>::empty() =~= chunks@.map_values(
        |s: String| s@,
    ));
    chunks
}

proof fn lemma_space_run_shift(s: Seq<char>, base: int, i: int)
    requires
        0 <= base <= s.len(),
        0 <= i,
    ensures
        space_run(s.skip(base), i) == space_run(s, base + i),
    decreases s.len() - base - i,
{
    if base + i < s.len() && crate::text::is_space(s[base + i]) {
        lemma_space_run_shift(s, base, i + 1);
    }
}

/// What a shell command printed and how it exited.
pub struct ShellResult {
    pub stdout: String,
    pub stderr: String,
    pub code: Option<i32>,
}

/// How a shell command ended, as the caller that ran it saw it.
pub enum ShellOutcome {
    /// It ran to the end; `code` is its exit status, none where a signal ended it.
    Finished { stdout: String, stderr: String, code: Option<i32> },
    /// It could not be run, with this message.
    Failed(String),
    /// It ran past its deadline.
    TimedOut,
}

/// The exit status reported for a command that could not be run.
pub const SHELL_FAILED_CODE: i32 = 1;

/// The exit status reported for a command that ran past its deadline, as `timeout(1)` does.
pub const SHELL_TIMEOUT_CODE: i32 = 124;

/// The result reported for a shell command.
pub fn shell_result(outcome: ShellOutcome) -> (r: ShellResult)
    ensures
        match outcome {
            ShellOutcome::Finished { stdout, stderr, code } => r.stdout@ == stdout@ && r.stderr@
                == stderr@ && r.code == code,
            ShellOutcome::Failed(e) => r.stdout@.len() == 0 && r.stderr@ == e@ && r.code == Some(
                SHELL_FAILED_CODE,
            ),
            ShellOutcome::TimedOut => r.stdout@.len() == 0 && r.stderr@ == "(timeout)"@ && r.code
                == Some(SHELL_TIMEOUT_CODE),
        },
{
    match outcome {
        ShellOutcome::Finished { stdout, stderr, code } => ShellResult { stdout, stderr, code },
        ShellOutcome::Failed(e) => ShellResult {
            stdout: String::new(),
            stderr: e,
            code: Some(SHELL_FAILED_CODE),
        },
        ShellOutcome::TimedOut => ShellResult {
            stdout: String::new(),
            stderr: String::from_str("(timeout)"),
            code: Some(SHELL_TIMEOUT_CODE),
        },
    }
}

} // verus!
