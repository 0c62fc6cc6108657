use vstd::prelude::*;

use crate::protocol::{json_parses, json_text_at, text_at, text_or};
use crate::runner::truncated;
use crate::session_log::{json_array_len_at, lines_from};
use crate::text::{
    chars_of, is_space, lemma_space_run_bounds, skip_spaces, space, space_run, string_of_range,
    trim, trimmed,
};

verus! {

/// The longest first message kept, in characters.
pub const FIRST_MESSAGE_MAX: usize = 500;

/// The longest part of the first message put into the title prompt, in characters.
pub const PROMPT_EXCERPT_MAX: usize = 200;

/// The longest title kept from the agent, in characters.
pub const TITLE_MAX: usize = 50;

/// How many words a fallback title takes from the first message.
pub const FALLBACK_WORDS: usize = 5;

/// The longest fallback title before it is cut and marked with `...`, in characters.
pub const FALLBACK_MAX: usize = 30;

/// The text of a user entry: its `content` where that is a string, the `text` of its first
/// item where it is an array; none where the entry is no user entry.
pub open spec fn user_text(entry: Seq<char>) -> Option<Seq<char>> {
    if json_text_at(entry, "/role"@) != Some("user"@) {
        None
    } else if json_text_at(entry, "/content"@) is Some {
        json_text_at(entry, "/content"@)
    } else if json_array_len_at(entry, "/content"@) is Some {
        Some(text_or(json_text_at(entry, "/content/0/text"@), Seq::empty()))
    } else {
        None
    }
}

/// The first non-empty user text among `lines`, trimmed and cut to `FIRST_MESSAGE_MAX`
/// characters; the search stops at the first non-blank line that is no JSON document.
pub open spec fn first_user_in(lines: Seq<Seq<char>>) -> Option<Seq<char>>
    decreases lines.len(),
{
    if lines.len() == 0 {
        None
    } else {
        let t = trim(lines[0]);
        if t.len() == 0 {
            first_user_in(lines.drop_first())
        } else if !json_parses(t) {
            None
        } else if user_text(t) is Some && trim(user_text(t)->0).len() > 0 {
            Some(truncated(trim(user_text(t)->0), FIRST_MESSAGE_MAX as int))
        } else {
            first_user_in(lines.drop_first())
        }
    }
}

fn truncate_chars(s: &Vec<char>, n: usize) -> (r: String)
    ensures
        r@ == truncated(s@, n as int),
{
    if s.len() <= n {
        string_of_range(s, 0, s.len())
    } else {
        string_of_range(s, 0, n)
    }
}

/// The first user message of a session log.
pub fn first_user_message(content: &str) -> (r: Option<String>)
    ensures
        match r {
            Some(m) => first_user_in(lines_from(content@, 0)) == Some(m@),
            None => first_user_in(lines_from(content@, 0)) is None,
        },
{
    let lines = crate::session_log::split_lines_from_start(content);
    let ghost lv = lines@.map_values(|s: String| s@);
    let mut i: usize = 0;
    assert(lv.skip(0) =~= lv);
    while i < lines.len()
        invariant
            lv == lines@.map_values(|s: String| s@),
            lv == lines_from(content@, 0),
            i <= lv.len(),
            first_user_in(lv) == first_user_in(lv.skip(i as int)),
        decreases lv.len() - i,
    {
        assert(lv.skip(i as int).drop_first() =~= lv.skip(i + 1));
        assert(lv.skip(i as int)[0] == lines@[i as int]@);
        let t = trimmed(lines[i].as_str());
        let line = string_of_range(&t, 0, t.len());
        assert(line@ =~= t@);
        assert(t@ == trim(lv.skip(i as int)[0]));
        proof {
            reveal_strlit("");
            assert(""@ =~= Seq::<char>::empty());
        }
        if t.len() > 0 {
            if !crate::protocol::parses_as_json(line.as_str()) {
                return None;
            }
            let role = text_at(line.as_str(), "/role");
            let is_user = match &role {
                Some(r) => crate::text::same_text(r.as_str(), "user"),
                None => false,
            };
            if is_user {
                let text = match text_at(line.as_str(), "/content") {
                    Some(s) => Some(s),
                    None => match crate::session_log::array_len_at(line.as_str(), "/content") {
                        Some(_) => match text_at(line.as_str(), "/content/0/text") {
                            Some(s) => Some(s),
                            None => Some(String::new()),
                        },
                        None => None,
                    },
                };
                if let Some(x) = text {
                    let xt = trimmed(x.as_str());
                    if xt.len() > 0 {
                        return Some(truncate_chars(&xt, FIRST_MESSAGE_MAX));
                    }
                }
            }
        }
        i += 1;
    }
    None
}

/// Where the word starting at `i` ends: the next whitespace character, or the end.
pub open spec fn word_end(s: Seq<char>, i: int) -> int
    decreases s.len() - i,
{
    if i < 0 || i >= s.len() || is_space(s[i]) {
        i
    } else {
        word_end(s, i + 1)
    }
}

proof fn lemma_word_end_bounds(s: Seq<char>, i: int)
    ensures
        0 <= i <= s.len() ==> i <= word_end(s, i) <= s.len(),
        0 <= i < s.len() && !is_space(s[i]) ==> word_end(s, i) > i,
    decreases s.len() - i,
{
    if 0 <= i < s.len() && !is_space(s[i]) {
        lemma_word_end_bounds(s, i + 1);
    }
}

/// The whitespace-separated words of `s` from position `from` on.
pub open spec fn words_from(s: Seq<char>, from: int) -> Seq<Seq<char>>
    decreases s.len() - from,
{
    let b = from + space_run(s, from);
    let e = word_end(s, b);
    if from < 0 || b >= s.len() || !(from <= b < e <= s.len()) {
        Seq::empty()
    } else {
        seq![s.subrange(b, e)] + words_from(s, e)
    }
}

/// Words joined by single spaces.
pub open spec fn joined(ws: Seq<Seq<char>>) -> Seq<char>
    decreases ws.len(),
{
    if ws.len() == 0 {
        Seq::empty()
    } else if ws.len() == 1 {
        ws[0]
    } else {
        joined(ws.drop_last()) + seq![' '] + ws.last()
    }
}

/// The title made from the first message when the agent gives none: its first words, cut
/// and marked with `...` when long.
pub open spec fn fallback_title_of(first: Seq<char>) -> Seq<char> {
    let w = words_from(first, 0);
    let j = joined(w.take(if w.len() < FALLBACK_WORDS { w.len() as int } else { FALLBACK_WORDS as int }));
    if j.len() > FALLBACK_MAX {
        j.take(FALLBACK_MAX as int) + "..."@
    } else {
        j
    }
}

/// The title made from the first message when the agent gives none.
pub fn fallback_title(first: &str) -> (r: String)
    ensures
        r@ == fallback_title_of(first@),
{
    let s = chars_of(first);
    let ghost w = words_from(s@, 0);
    let mut out: Vec<char> = Vec::new();
    let mut count: usize = 0;
    let mut pos: usize = 0;
    proof {
        lemma_space_run_bounds(s@, 0);
    }
    while count < FALLBACK_WORDS && pos < s.len()
        invariant
            s@ == first@,
            w == words_from(s@, 0),
            pos <= s@.len(),
            count <= FALLBACK_WORDS,
            count <= w.len(),
            w.skip(count as int) == words_from(s@, pos as int),
            out@ == joined(w.take(count as int)),
        decreases s@.len() - pos,
    {
        let b = skip_spaces(&s, pos);
        proof {
            lemma_space_run_bounds(s@, pos as int);
        }
        if b >= s.len() {
            assert(words_from(s@, pos as int) =~= Seq::<Seq<char>>::empty());
            pos = s.len();
            proof {
                assert(words_from(s@, pos as int) =~= Seq::<Seq<char>>::empty());
            }
        } else {
            let mut e = b;
            proof {
                lemma_word_end_bounds(s@, b as int);
                lemma_space_run_bounds(s@, b as int);
            }
            while e < s.len() && !space(s[e])
                invariant
                    b <= e <= s@.len(),
                    word_end(s@, b as int) == word_end(s@, e as int),
                decreases s@.len() - e,
            {
                e += 1;
            }
            let ghost word = s@.subrange(b as int, e as int);
            assert(words_from(s@, pos as int) == seq![word] + words_from(s@, e as int));
            let ghost before = out@;
            if count > 0 {
                out.push(' ');
            }
            let mut k = b;
            while k < e
                invariant
                    b <= k <= e <= s@.len(),
                    out@ == (if count > 0 { before.push(' ') } else { before }) + s@.subrange(
                        b as int,
                        k as int,
                    ),
                decreases e - k,
            {
                out.push(s[k]);
                assert(s@.subrange(b as int, k + 1) == s@.subrange(b as int, k as int).push(s@[k as int]));
                k += 1;
            }
            proof {
                assert(w.skip(count as int)[0] == word);
                assert(w[count as int] == word);
                assert(w.take(count + 1).drop_last() =~= w.take(count as int));
                assert(w.take(count + 1).last() == word);
                if count == 0 {
                    assert(before =~= Seq::<char>::empty());
                    assert(out@ =~= word);
                } else {
                    assert(out@ =~= before + seq![' '] + word);
                }
                assert(w.skip(count + 1) =~= w.skip(count as int).drop_first());
                assert(words_from(s@, e as int) =~= (seq![word] + words_from(s@, e as int)).drop_first());
            }
            count += 1;
            pos = e;
        }
    }
    proof {
        if count < FALLBACK_WORDS {
            assert(w.skip(count as int) =~= Seq::<Seq<char>>::empty()) by {
                if pos < s@.len() {
                } else {
                    assert(words_from(s@, pos as int) =~= Seq::<Seq<char>>::empty());
                }
            }
            assert(w.take(count as int) =~= w);
        }
    }
    let j = string_of_range(&out, 0, out.len());
    assert(j@ =~= out@);
    if out.len() > FALLBACK_MAX {
        let mut t = string_of_range(&out, 0, FALLBACK_MAX);
        t.append("...");
        t
    } else {
        j
    }
}

/// The request that asks the agent for a title.
pub open spec fn title_prompt_of(first: Seq<char>) -> Seq<char> {
    "Generate a very short title (max 5 words) for a conversation that started with: \""@
        + truncated(first, PROMPT_EXCERPT_MAX as int)
        + "\". Reply with ONLY the title, no quotes, no explanation."@
}

/// The request that asks the agent for a title of a session that began with `first`.
pub fn title_prompt(first: &str) -> (r: String)
    ensures
        r@ == title_prompt_of(first@),
{
    let cs = chars_of(first);
    let excerpt = truncate_chars(&cs, PROMPT_EXCERPT_MAX);
    let mut p = String::from_str(
        "Generate a very short title (max 5 words) for a conversation that started with: \"",
    );
    p.append(excerpt.as_str());
    p.append("\". Reply with ONLY the title, no quotes, no explanation.");
    p
}

/// A session's title: the agent's reply, trimmed and cut to `TITLE_MAX` characters, where
/// it gave a non-blank one; else the fallback made from the first message.
pub open spec fn title_of(reply: Option<Seq<char>>, first: Seq<char>) -> Seq<char> {
    if reply is Some && trim(reply->0).len() > 0 {
        truncated(trim(reply->0), TITLE_MAX as int)
    } else {
        fallback_title_of(first)
    }
}

/// A session's title from the agent's reply, if it gave one, and the first message.
pub fn session_title(reply: Option<String>, first: &str) -> (r: String)
    ensures
        r@ == title_of(crate::protocol::opt_view(reply), first@),
{
    match reply {
        Some(out) => {
            let t = trimmed(out.as_str());
            if t.len() > 0 {
                truncate_chars(&t, TITLE_MAX)
            } else {
                fallback_title(first)
            }
        },
        None => fallback_title(first),
    }
}

} // verus!
