use vstd::prelude::*;

use crate::text::{chars_of, equals_ignoring_case, eq_ignoring_case, string_of_range};

verus! {

/// Where the last component of `s[..end]` ends, once trailing separators and `.`
/// components are passed over.
pub open spec fn component_end(s: Seq<char>, end: int) -> int
    decreases end,
{
    if end <= 0 || end > s.len() {
        0
    } else if s[end - 1] == '/' {
        component_end(s, end - 1)
    } else if s[end - 1] == '.' && (end == 1 || s[end - 2] == '/') {
        component_end(s, end - 1)
    } else {
        end
    }
}

/// Where the component ending at `end` begins.
pub open spec fn component_start(s: Seq<char>, end: int) -> int
    decreases end,
{
    if end <= 0 || end > s.len() {
        0
    } else if s[end - 1] != '/' {
        component_start(s, end - 1)
    } else {
        end
    }
}

/// The last component of a path, as `Path::file_name` gives it: none for an empty path,
/// the root, or one that ends in `..`.
pub open spec fn file_name_of(path: Seq<char>) -> Option<Seq<char>> {
    let e = component_end(path, path.len() as int);
    let b = component_start(path, e);
    let c = path.subrange(b, e);
    if c.len() == 0 || c == ".."@ {
        None
    } else {
        Some(c)
    }
}

/// The position of the last `.` of `s`, if any.
pub open spec fn last_dot(s: Seq<char>, n: int) -> Option<int>
    decreases n,
{
    if n <= 0 || n > s.len() {
        None
    } else if s[n - 1] == '.' {
        Some(n - 1)
    } else {
        last_dot(s, n - 1)
    }
}

/// The extension of a file name, as `Path::extension` gives it: after the last dot, where
/// that dot is not the first character.
pub open spec fn extension_of(name: Seq<char>) -> Option<Seq<char>> {
    match last_dot(name, name.len() as int) {
        Some(d) => if d == 0 {
            None
        } else {
            Some(name.skip(d + 1))
        },
        None => None,
    }
}

/// How an output file is sent back.
#[derive(Debug, Clone, Copy, PartialEq, Eq, Structural)]
pub enum DetectedFileType {
    Photo,
    Document,
}

/// A file to send back, with its kind.
#[derive(Debug, Clone)]
pub struct DetectedFile {
    pub path: String,
    pub filename: String,
    pub file_type: DetectedFileType,
}

pub open spec fn is_image_ext(e: Seq<char>) -> bool {
    equals_ignoring_case(e, "png"@) || equals_ignoring_case(e, "jpg"@) || equals_ignoring_case(
        e,
        "jpeg"@,
    ) || equals_ignoring_case(e, "gif"@) || equals_ignoring_case(e, "webp"@)
}

pub open spec fn is_document_ext(e: Seq<char>) -> bool {
    equals_ignoring_case(e, "pdf"@) || equals_ignoring_case(e, "txt"@) || equals_ignoring_case(
        e,
        "md"@,
    ) || equals_ignoring_case(e, "json"@) || equals_ignoring_case(e, "csv"@)
        || equals_ignoring_case(e, "html"@) || equals_ignoring_case(e, "xml"@)
        || equals_ignoring_case(e, "yaml"@) || equals_ignoring_case(e, "yml"@)
}

/// The kind of file a path names, by its extension in any case; none for other files.
pub open spec fn file_type_of(path: Seq<char>) -> Option<DetectedFileType> {
    match file_name_of(path) {
        Some(name) => match extension_of(name) {
            Some(e) => if is_image_ext(e) {
                Some(DetectedFileType::Photo)
            } else if is_document_ext(e) {
                Some(DetectedFileType::Document)
            } else {
                None
            },
            None => None,
        },
        None => None,
    }
}

/// The last component of a path.
pub fn file_name(path: &str) -> (r: Option<String>)
    ensures
        match r {
            Some(n) => file_name_of(path@) == Some(n@),
            None => file_name_of(path@) is None,
        },
{
    let cs = chars_of(path);
    let mut e = cs.len();
    while e > 0 && (cs[e - 1] == '/' || (cs[e - 1] == '.' && (e == 1 || cs[e - 2] == '/')))
        invariant
            cs@ == path@,
            e <= cs@.len(),
            component_end(cs@, cs@.len() as int) == component_end(cs@, e as int),
        decreases e,
    {
        e -= 1;
    }
    let mut b = e;
    while b > 0 && cs[b - 1] != '/'
        invariant
            cs@ == path@,
            b <= e <= cs@.len(),
            component_end(cs@, cs@.len() as int) == e,
            component_start(cs@, e as int) == component_start(cs@, b as int),
        decreases b,
    {
        b -= 1;
    }
    let name = string_of_range(&cs, b, e);
    proof {
        reveal_strlit("..");
        assert(component_start(cs@, b as int) == b);
        assert(component_start(cs@, e as int) == b);
    }
    if b == e || (e - b == 2 && cs[b] == '.' && cs[b + 1] == '.') {
        proof {
            if e - b == 2 {
                assert(name@ =~= ".."@);
            }
        }
        None
    } else {
        proof {
            if name@ == ".."@ {
                assert(".."@.len() == 2 && ".."@[0] == '.' && ".."@[1] == '.');
                assert(name@.len() == 2);
                assert(cs@[b as int] == name@[0]);
                assert(cs@[b + 1] == name@[1]);
            }
            assert(name@ != ".."@);
            assert(file_name_of(path@) == Some(name@));
        }
        Some(name)
    }
}

/// The extension of a file name.
pub fn extension(name: &str) -> (r: Option<String>)
    ensures
        match r {
            Some(x) => extension_of(name@) == Some(x@),
            None => extension_of(name@) is None,
        },
{
    let cs = chars_of(name);
    let mut n = cs.len();
    while n > 0 && cs[n - 1] != '.'
        invariant
            cs@ == name@,
            n <= cs@.len(),
            last_dot(cs@, cs@.len() as int) == last_dot(cs@, n as int),
        decreases n,
    {
        n -= 1;
    }
    if n <= 1 {
        None
    } else {
        Some(string_of_range(&cs, n, cs.len()))
    }
}

fn is_image(e: &str) -> (r: bool)
    ensures
        r == is_image_ext(e@),
{
    eq_ignoring_case(e, "png") || eq_ignoring_case(e, "jpg") || eq_ignoring_case(e, "jpeg")
        || eq_ignoring_case(e, "gif") || eq_ignoring_case(e, "webp")
}

fn is_document(e: &str) -> (r: bool)
    ensures
        r == is_document_ext(e@),
{
    eq_ignoring_case(e, "pdf") || eq_ignoring_case(e, "txt") || eq_ignoring_case(e, "md")
        || eq_ignoring_case(e, "json") || eq_ignoring_case(e, "csv") || eq_ignoring_case(e, "html")
        || eq_ignoring_case(e, "xml") || eq_ignoring_case(e, "yaml") || eq_ignoring_case(e, "yml")
}

/// The kind of file a path names, if it is one to send back.
pub fn file_type(path: &str) -> (r: Option<DetectedFileType>)
    ensures
        r == file_type_of(path@),
{
    match file_name(path) {
        Some(n) => match extension(n.as_str()) {
            Some(e) => if is_image(e.as_str()) {
                Some(DetectedFileType::Photo)
            } else if is_document(e.as_str()) {
                Some(DetectedFileType::Document)
            } else {
                None
            },
            None => None,
        },
        None => None,
    }
}

/// The images and documents among `file_paths`, in their order; other files are left out.
pub open spec fn detected(paths: Seq<String>) -> Seq<(Seq<char>, Seq<char>, DetectedFileType)>
    decreases paths.len(),
{
    if paths.len() == 0 {
        Seq::empty()
    } else {
        let p = paths.last()@;
        let before = detected(paths.drop_last());
        match file_type_of(p) {
            Some(t) => before.push((p, file_name_of(p)->0, t)),
            None => before,
        }
    }
}

pub open spec fn detected_view(v: Seq<DetectedFile>) -> Seq<(Seq<char>, Seq<char>, DetectedFileType)> {
    v.map_values(|f: DetectedFile| (f.path@, f.filename@, f.file_type))
}

/// The images and documents among `file_paths`, with their names and kinds.
pub fn categorize_files(file_paths: &[String]) -> (r: Vec<DetectedFile>)
    ensures
        detected_view(r@) == detected(file_paths@),
{
    let mut out: Vec<DetectedFile> = Vec::new();
    let mut i: usize = 0;
    while i < file_paths.len()
        invariant
            i <= file_paths@.len(),
            detected_view(out@) == detected(file_paths@.take(i as int)),
        decreases file_paths@.len() - i,
    {
        let p = &file_paths[i];
        assert(file_paths@.take(i + 1).drop_last() == file_paths@.take(i as int));
        match file_type(p.as_str()) {
            Some(t) => {
                let name = match file_name(p.as_str()) {
                    Some(n) => n,
                    None => String::new(),
                };
                let ghost before = out@;
                out.push(DetectedFile { path: p.clone(), filename: name, file_type: t });
                assert(detected_view(out@) =~= detected_view(before).push((p@, name@, t)));
            },
            None => {},
        }
        i += 1;
    }
    assert(file_paths@.take(file_paths@.len() as int) == file_paths@);
    out
}

/// Whether `path` is listed in `before` with a modification time at least `mtime`.
pub open spec fn unchanged_in(before: Seq<(String, u128)>, path: Seq<char>, mtime: u128) -> bool {
    exists|k: int| 0 <= k < before.len() && before[k].0@ == path && mtime <= #[trigger] before[k].1
}

/// The listed files, in order, that are absent from `before` or newer than there.
pub open spec fn changed(before: Seq<(String, u128)>, after: Seq<(String, u128)>) -> Seq<Seq<char>>
    decreases after.len(),
{
    if after.len() == 0 {
        Seq::empty()
    } else {
        let rest = changed(before, after.drop_last());
        let (p, t) = after.last();
        if unchanged_in(before, p@, t) {
            rest
        } else {
            rest.push(p@)
        }
    }
}

/// The files of a later listing that are new since an earlier one, or modified after it;
/// listings hold each path with its modification time.
pub fn changed_files(before: &Vec<(String, u128)>, after: &Vec<(String, u128)>) -> (r: Vec<String>)
    ensures
        r@.map_values(|s: String| s@) == changed(before@, after@),
{
    let mut out: Vec<String> = Vec::new();
    let mut i: usize = 0;
    while i < after.len()
        invariant
            i <= after@.len(),
            out@.map_values(|s: String| s@) == changed(before@, after@.take(i as int)),
        decreases after@.len() - i,
    {
        assert(after@.take(i + 1).drop_last() == after@.take(i as int));
        let p = &after[i].0;
        let t = after[i].1;
        let mut found = false;
        let mut k: usize = 0;
        while k < before.len() && !found
            invariant
                k <= before@.len(),
                found ==> unchanged_in(before@, p@, t),
                !found ==> forall|j: int| 0 <= j < k ==> !(before@[j].0@ == p@ && t <= before@[j].1),
            decreases before@.len() - k + (if found { 0int } else { 1int }),
        {
            if t <= before[k].1 && crate::text::same_text(before[k].0.as_str(), p.as_str()) {
                found = true;
            } else {
                k += 1;
            }
        }
        if !found {
            let ghost prev = out@;
            out.push(p.clone());
            assert(out@.map_values(|s: String| s@) =~= prev.map_values(|s: String| s@).push(p@));
        }
        i += 1;
    }
    assert(after@.take(after@.len() as int) == after@);
    out
}

} // verus!
