use vstd::prelude::*;

use crate::patterns::{regex_replaced, replace_all};
use crate::text::chars_of;

verus! {

/// The HTML text of one character: `&`, `<` and `>` escaped.
pub open spec fn escaped_char(c: char) -> Seq<char> {
    if c == '&' {
        "&amp;"@
    } else if c == '<' {
        "&lt;"@
    } else if c == '>' {
        "&gt;"@
    } else {
        seq![c]
    }
}

/// `s` with `&`, `<` and `>` escaped for HTML.
pub open spec fn html_escaped(s: Seq<char>) -> Seq<char>
    decreases s.len(),
{
    if s.len() == 0 {
        Seq::empty()
    } else {
        html_escaped(s.drop_last()) + escaped_char(s.last())
    }
}

/// `text` with `&`, `<` and `>` escaped for HTML.
pub fn escape_html(text: &str) -> (r: String)
    ensures
        r@ == html_escaped(text@),
{
    let cs = chars_of(text);
    let mut out = String::new();
    let mut i: usize = 0;
    while i < cs.len()
        invariant
            cs@ == text@,
            i <= cs@.len(),
            out@ == html_escaped(cs@.take(i as int)),
        decreases cs@.len() - i,
    {
        let c = cs[i];
        if c == '&' {
            out.append("&amp;");
        } else if c == '<' {
            out.append("&lt;");
        } else if c == '>' {
            out.append("&gt;");
        } else {
            out.push(c);
        }
        assert(cs@.take(i + 1).drop_last() == cs@.take(i as int));
        i += 1;
    }
    assert(cs@.take(cs@.len() as int) == cs@);
    out
}

/// The plain text of markdown, step by step: code fences, inline code, bold, italic,
/// strikethrough and links give up their markup and keep their text.
pub open spec fn stripped(text: Seq<char>) -> Seq<char> {
    let t = regex_replaced("```\\w*\\n?([\\s\\S]*?)```"@, text, "$1"@);
    let t = regex_replaced("`([^`]+)`"@, t, "$1"@);
    let t = regex_replaced("\\*\\*([^*]+)\\*\\*"@, t, "$1"@);
    let t = regex_replaced("__([^_]+)__"@, t, "$1"@);
    let t = regex_replaced("\\*([^*]+)\\*"@, t, "$1"@);
    let t = regex_replaced("_([^_]+)_"@, t, "$1"@);
    let t = regex_replaced("~~([^~]+)~~"@, t, "$1"@);
    regex_replaced("\\[([^\\]]+)\\]\\([^)]+\\)"@, t, "$1"@)
}

/// Markdown reduced to its plain text.
pub fn strip_markdown(text: &str) -> (r: String)
    ensures
        r@ == stripped(text@),
{
    let t = replace_all("```\\w*\\n?([\\s\\S]*?)```", text, "$1");
    let t = replace_all("`([^`]+)`", t.as_str(), "$1");
    let t = replace_all("\\*\\*([^*]+)\\*\\*", t.as_str(), "$1");
    let t = replace_all("__([^_]+)__", t.as_str(), "$1");
    let t = replace_all("\\*([^*]+)\\*", t.as_str(), "$1");
    let t = replace_all("_([^_]+)_", t.as_str(), "$1");
    let t = replace_all("~~([^~]+)~~", t.as_str(), "$1");
    replace_all("\\[([^\\]]+)\\]\\([^)]+\\)", t.as_str(), "$1")
}

} // verus!
