use base64::Engine;
use vstd::prelude::*;

use crate::protocol::{json_text_at, text_at, text_or};
use crate::runner::ExtractedImage;
use crate::text::{chars_of, decimal, find_line_end, line_end, push_decimal, trim, trimmed};

verus! {

/// The length of the array found at the JSON pointer `pointer` in the document held by
/// `line`, if the line is a document and the pointer leads to an array.
pub uninterp spec fn json_array_len_at(line: Seq<char>, pointer: Seq<char>) -> Option<nat>;

/// The bytes that standard base64 text `s` encodes, if it is valid.
pub uninterp spec fn base64_decoded(s: Seq<char>) -> Option<Seq<u8>>;

/// Relies on `serde_json::from_str::<Value>`, `Value::pointer` and `Value::as_array`: the
/// length of the array reached by following `pointer`.
#[verifier::external_body]
pub(crate) fn array_len_at(line: &str, pointer: &str) -> (r: Option<usize>)
    ensures
        match r {
            Some(n) => json_array_len_at(line@, pointer@) == Some(n as nat),
            None => json_array_len_at(line@, pointer@) is None,
        },
{
    let v: serde_json::Value = match serde_json::from_str(line) {
        Ok(v) => v,
        Err(_) => return None,
    };
    match v.pointer(pointer) {
        Some(serde_json::Value::Array(a)) => Some(a.len()),
        _ => None,
    }
}

/// Relies on base64's `STANDARD` engine `decode`: the decoded bytes, none for text that is
/// not valid padded standard base64.
#[verifier::external_body]
fn decode_base64(s: &str) -> (r: Option<Vec<u8>>)
    ensures
        match r {
            Some(v) => base64_decoded(s@) == Some(v@),
            None => base64_decoded(s@) is None,
        },
{
    match base64::engine::general_purpose::STANDARD.decode(s) {
        Ok(v) => Some(v),
        Err(_) => None,
    }
}

/// `s` without one trailing carriage return.
pub open spec fn strip_cr(s: Seq<char>) -> Seq<char> {
    if s.len() > 0 && s.last() == '\r' {
        s.drop_last()
    } else {
        s
    }
}

/// The lines of `t` from position `from` on, split at line feeds, a carriage return before
/// a line feed dropped.
pub open spec fn lines_from(t: Seq<char>, from: int) -> Seq<Seq<char>>
    decreases t.len() - from,
{
    if from < 0 || from > t.len() {
        Seq::empty()
    } else {
        let e = line_end(t, from);
        let piece = strip_cr(t.subrange(from, e));
        if e >= t.len() || e < from {
            seq![piece]
        } else {
            seq![piece] + lines_from(t, e + 1)
        }
    }
}

/// The lines of a session log, as `str::lines` gives them after the text is trimmed.
pub open spec fn log_lines(content: Seq<char>) -> Seq<Seq<char>> {
    let t = trim(content);
    if t.len() == 0 {
        Seq::empty()
    } else {
        lines_from(t, 0)
    }
}

/// The lines of a session log, trimmed as a whole first.
pub fn split_log_lines(content: &str) -> (r: Vec<String>)
    ensures
        r@.map_values(|s: String| s@) == log_lines(content@),
{
    let t = trimmed(content);
    let mut out: Vec<String> = Vec::new();
    if t.len() == 0 {
        assert(out@.map_values(|s: String| s@) =~= Seq::<Seq<char>>::empty());
        return out;
    }
    let mut from: usize = 0;
    loop
        invariant
            t@ == trim(content@),
            t@.len() > 0,
            from <= t@.len(),
            out@.map_values(|s: String| s@) + lines_from(t@, from as int) == lines_from(t@, 0),
        decreases t@.len() - from,
    {
        let e = find_line_end(&t, from);
        let end = if e > from && t[e - 1] == '\r' {
            e - 1
        } else {
            e
        };
        let piece = crate::text::string_of_range(&t, from, end);
        let ghost before = out@;
        out.push(piece);
        proof {
            assert(piece@ =~= strip_cr(t@.subrange(from as int, e as int)));
            assert(out@.map_values(|s: String| s@) =~= before.map_values(|s: String| s@).push(
                piece@,
            ));
        }
        if e >= t.len() {
            assert(out@.map_values(|s: String| s@) =~= lines_from(t@, 0));
            return out;
        }
        assert(out@.map_values(|s: String| s@) + lines_from(t@, e + 1) =~= before.map_values(
            |s: String| s@,
        ) + lines_from(t@, from as int));
        from = e + 1;
    }
}

/// The lines of `content` split at line feeds, a carriage return before one dropped.
pub fn split_lines_from_start(content: &str) -> (r: Vec<String>)
    ensures
        r@.map_values(|s: String| s@) == lines_from(content@, 0),
{
    let t = chars_of(content);
    let mut out: Vec<String> = Vec::new();
    let mut from: usize = 0;
    loop
        invariant
            t@ == content@,
            from <= t@.len(),
            out@.map_values(|s: String| s@) + lines_from(t@, from as int) == lines_from(t@, 0),
        decreases t@.len() - from,
    {
        let e = find_line_end(&t, from);
        let end = if e > from && t[e - 1] == '\r' {
            e - 1
        } else {
            e
        };
        let piece = crate::text::string_of_range(&t, from, end);
        let ghost before = out@;
        out.push(piece);
        proof {
            assert(piece@ =~= strip_cr(t@.subrange(from as int, e as int)));
            assert(out@.map_values(|s: String| s@) =~= before.map_values(|s: String| s@).push(
                piece@,
            ));
        }
        if e >= t.len() {
            assert(out@.map_values(|s: String| s@) =~= lines_from(t@, 0));
            return out;
        }
        assert(out@.map_values(|s: String| s@) + lines_from(t@, e + 1) =~= before.map_values(
            |s: String| s@,
        ) + lines_from(t@, from as int));
        from = e + 1;
    }
}

/// How many lines a session log holds.
pub fn session_line_count(content: &str) -> (r: usize)
    ensures
        r == log_lines(content@).len(),
{
    let lines = split_log_lines(content);
    lines.len()
}

/// The JSON pointer to `field` of item `k` of a message's content.
pub open spec fn item_pointer(k: nat, field: Seq<char>) -> Seq<char> {
    "/message/content/"@ + decimal(k) + field
}

/// The image that item `k` of the message on `line` carries, as bytes and media type:
/// inline base64 `data` with a `mimeType`, or else a base64 `source` (PNG where it names no
/// media type). Items that are no image, or whose data does not decode, carry none.
pub open spec fn item_image(line: Seq<char>, k: nat) -> Option<(Seq<u8>, Seq<char>)> {
    if json_text_at(line, item_pointer(k, "/type"@)) != Some("image"@) {
        None
    } else {
        let data = json_text_at(line, item_pointer(k, "/data"@));
        let mime = json_text_at(line, item_pointer(k, "/mimeType"@));
        if data is Some && mime is Some {
            match base64_decoded(data->0) {
                Some(b) => Some((b, mime->0)),
                None => None,
            }
        } else if json_text_at(line, item_pointer(k, "/source/type"@)) == Some("base64"@)
            && json_text_at(line, item_pointer(k, "/source/data"@)) is Some {
            match base64_decoded(json_text_at(line, item_pointer(k, "/source/data"@))->0) {
                Some(b) => Some(
                    (b, text_or(json_text_at(line, item_pointer(k, "/source/media_type"@)), "image/png"@)),
                ),
                None => None,
            }
        } else {
            None
        }
    }
}

/// The images of the first `n` content items of the message on `line`.
pub open spec fn item_images(line: Seq<char>, n: nat) -> Seq<(Seq<u8>, Seq<char>)>
    decreases n,
{
    if n == 0 {
        Seq::empty()
    } else {
        let before = item_images(line, (n - 1) as nat);
        match item_image(line, (n - 1) as nat) {
            Some(i) => before.push(i),
            None => before,
        }
    }
}

/// The images of one session log line: those of a tool result message, none otherwise.
pub open spec fn line_images(line: Seq<char>) -> Seq<(Seq<u8>, Seq<char>)> {
    if json_text_at(line, "/type"@) == Some("message"@) && json_text_at(line, "/message/role"@)
        == Some("toolResult"@) {
        match json_array_len_at(line, "/message/content"@) {
            Some(n) => item_images(line, n),
            None => Seq::empty(),
        }
    } else {
        Seq::empty()
    }
}

/// The images of several lines, in order.
pub open spec fn images_of_lines(lines: Seq<Seq<char>>) -> Seq<(Seq<u8>, Seq<char>)>
    decreases lines.len(),
{
    if lines.len() == 0 {
        Seq::empty()
    } else {
        images_of_lines(lines.drop_last()) + line_images(lines.last())
    }
}

pub open spec fn image_views(v: Seq<ExtractedImage>) -> Seq<(Seq<u8>, Seq<char>)> {
    v.map_values(|i: ExtractedImage| (i.data@, i.mime_type@))
}

fn pointer_to(k: usize, field: &str) -> (r: String)
    ensures
        r@ == item_pointer(k as nat, field@),
{
    let mut p = String::from_str("/message/content/");
    push_decimal(&mut p, k as u64);
    p.append(field);
    p
}

fn same(a: &Option<String>, b: &str) -> (r: bool)
    ensures
        r == (crate::protocol::opt_view(*a) == Some(b@)),
{
    match a {
        Some(s) => crate::text::same_text(s.as_str(), b),
        None => false,
    }
}

fn image_of_item(line: &str, k: usize) -> (r: Option<ExtractedImage>)
    ensures
        match r {
            Some(i) => item_image(line@, k as nat) == Some((i.data@, i.mime_type@)),
            None => item_image(line@, k as nat) is None,
        },
{
    let kind = text_at(line, pointer_to(k, "/type").as_str());
    if !same(&kind, "image") {
        return None;
    }
    let data = text_at(line, pointer_to(k, "/data").as_str());
    let mime = text_at(line, pointer_to(k, "/mimeType").as_str());
    match (data, mime) {
        (Some(d), Some(m)) => {
            return match decode_base64(d.as_str()) {
                Some(b) => Some(ExtractedImage { data: b, mime_type: m }),
                None => None,
            };
        },
        _ => {},
    }
    let source_kind = text_at(line, pointer_to(k, "/source/type").as_str());
    if !same(&source_kind, "base64") {
        return None;
    }
    match text_at(line, pointer_to(k, "/source/data").as_str()) {
        Some(d) => match decode_base64(d.as_str()) {
            Some(b) => {
                let media = text_at(line, pointer_to(k, "/source/media_type").as_str());
                let mime_type = match media {
                    Some(m) => m,
                    None => String::from_str("image/png"),
                };
                Some(ExtractedImage { data: b, mime_type })
            },
            None => None,
        },
        None => None,
    }
}

/// The images of one session log line.
pub fn images_in_line(line: &str) -> (r: Vec<ExtractedImage>)
    ensures
        image_views(r@) == line_images(line@),
{
    let mut out: Vec<ExtractedImage> = Vec::new();
    let kind = text_at(line, "/type");
    let role = text_at(line, "/message/role");
    if !same(&kind, "message") || !same(&role, "toolResult") {
        assert(image_views(out@) =~= Seq::empty());
        return out;
    }
    let n = match array_len_at(line, "/message/content") {
        Some(n) => n,
        None => {
            assert(image_views(out@) =~= Seq::empty());
            return out;
        },
    };
    let mut k: usize = 0;
    while k < n
        invariant
            k <= n,
            json_array_len_at(line@, "/message/content"@) == Some(n as nat),
            image_views(out@) == item_images(line@, k as nat),
        decreases n - k,
    {
        match image_of_item(line, k) {
            Some(img) => {
                let ghost before = out@;
                out.push(img);
                assert(image_views(out@) =~= image_views(before).push((img.data@, img.mime_type@)));
            },
            None => {},
        }
        k += 1;
    }
    out
}

/// The images that tool results wrote to a session log after its first `after_line` lines.
pub fn extract_images_in(content: &str, after_line: usize) -> (r: Vec<ExtractedImage>)
    ensures
        ({
            let lines = log_lines(content@);
            let from = if after_line < lines.len() {
                after_line as int
            } else {
                lines.len() as int
            };
            image_views(r@) == images_of_lines(lines.skip(from))
        }),
{
    let lines = split_log_lines(content);
    let ghost lv = lines@.map_values(|s: String| s@);
    let from = if after_line < lines.len() {
        after_line
    } else {
        lines.len()
    };
    let mut out: Vec<ExtractedImage> = Vec::new();
    let mut i = from;
    assert(lv.skip(from as int).take(0) =~= Seq::<Seq<char>>::empty());
    while i < lines.len()
        invariant
            lv == lines@.map_values(|s: String| s@),
            from <= i <= lines@.len(),
            image_views(out@) == images_of_lines(lv.skip(from as int).take(i - from)),
        decreases lines@.len() - i,
    {
        let imgs = images_in_line(lines[i].as_str());
        let ghost before = out@;
        let mut j: usize = 0;
        while j < imgs.len()
            invariant
                j <= imgs@.len(),
                image_views(out@) == image_views(before) + image_views(imgs@).take(j as int),
            decreases imgs@.len() - j,
        {
            let ghost prev = out@;
            let img = ExtractedImage { data: imgs[j].data.clone(), mime_type: imgs[j].mime_type.clone() };
            out.push(img);
            assert(image_views(out@) =~= image_views(prev).push((imgs@[j as int].data@, imgs@[j as int].mime_type@)));
            assert(image_views(imgs@).take(j + 1) =~= image_views(imgs@).take(j as int).push(
                (imgs@[j as int].data@, imgs@[j as int].mime_type@),
            ));
            j += 1;
        }
        proof {
            let s = lv.skip(from as int);
            assert(s.take(i + 1 - from).drop_last() =~= s.take(i - from));
            assert(s.take(i + 1 - from).last() == lines@[i as int]@);
            assert(image_views(imgs@).take(imgs@.len() as int) =~= image_views(imgs@));
        }
        i += 1;
    }
    assert(lv.skip(from as int).take(lines@.len() - from) =~= lv.skip(from as int));
    out
}

} // verus!
