use vstd::prelude::*;

use crate::error::MiniClawError;
use crate::home::home_or_tmp;
use crate::tenant_map::{
    json_pretty_pairs, json_string_pairs, keys_distinct, map_of, map_of_pairs, rendered, TenantMap,
};
use crate::text::{chars_of, join_path, path_join, string_of_range};

verus! {

/// Number of characters equal to `c` in `s` from position `from` on, before any other.
pub open spec fn char_run(s: Seq<char>, from: int, c: char) -> int
    decreases s.len() - from,
{
    if from < 0 || from >= s.len() || s[from] != c {
        0
    } else {
        1 + char_run(s, from + 1, c)
    }
}

proof fn lemma_char_run_bounds(s: Seq<char>, from: int, c: char)
    ensures
        0 <= char_run(s, from, c),
        0 <= from <= s.len() ==> from + char_run(s, from, c) <= s.len(),
    decreases s.len() - from,
{
    if !(from < 0 || from >= s.len() || s[from] != c) {
        lemma_char_run_bounds(s, from + 1, c);
    }
}

pub(crate) fn skip_char(s: &Vec<char>, from: usize, c: char) -> (r: usize)
    requires
        from <= s@.len(),
    ensures
        r == from + char_run(s@, from as int, c),
        r <= s@.len(),
{
    proof {
        lemma_char_run_bounds(s@, from as int, c);
    }
    let mut i = from;
    while i < s.len() && s[i] == c
        invariant
            from <= i <= s@.len(),
            from + char_run(s@, from as int, c) == i + char_run(s@, i as int, c),
        decreases s@.len() - i,
    {
        i += 1;
    }
    i
}

/// How a requested workspace path reads before the file system is asked.
pub enum WorkspaceInput {
    /// A path to use as it is.
    Absolute(String),
    /// A path relative to the tenant's current workspace.
    Relative(String),
}

pub ghost enum WorkspaceInputView {
    Absolute(Seq<char>),
    Relative(Seq<char>),
}

impl View for WorkspaceInput {
    type V = WorkspaceInputView;

    open spec fn view(&self) -> WorkspaceInputView {
        match self {
            WorkspaceInput::Absolute(p) => WorkspaceInputView::Absolute(p@),
            WorkspaceInput::Relative(p) => WorkspaceInputView::Relative(p@),
        }
    }
}

/// A path starting with `~` lies under `home` (the tildes and the slashes after them
/// dropped); one starting with `/` is absolute; any other is relative.
pub open spec fn input_meaning(input: Seq<char>, home: Seq<char>) -> WorkspaceInputView {
    if input.len() > 0 && input[0] == '~' {
        let t = char_run(input, 0, '~');
        let rest = input.skip(t + char_run(input, t, '/'));
        WorkspaceInputView::Absolute(path_join(home, rest))
    } else if input.len() > 0 && input[0] == '/' {
        WorkspaceInputView::Absolute(input)
    } else {
        WorkspaceInputView::Relative(input)
    }
}

/// The error for a path that is missing or no directory, or none for a directory.
pub open spec fn directory_check(path: Seq<char>, exists: bool, is_dir: bool) -> Option<Seq<char>> {
    if !exists {
        Some("Directory not found: "@ + path)
    } else if !is_dir {
        Some("Not a directory: "@ + path)
    } else {
        None
    }
}

/// `path` with the home directory written `~`.
pub open spec fn home_relative(path: Seq<char>, home: Seq<char>) -> Seq<char> {
    if path == home {
        "~"@
    } else if home.len() <= path.len() && path.take(home.len() as int) == home {
        "~"@ + path.skip(home.len() as int)
    } else {
        path
    }
}

/// The workspace directory bound to each tenant.
pub struct WorkspaceManager {
    state: TenantMap,
    state_file: String,
}

impl View for WorkspaceManager {
    type V = Map<i64, Seq<char>>;

    closed spec fn view(&self) -> Map<i64, Seq<char>> {
        self.state@
    }
}

impl WorkspaceManager {
    pub closed spec fn wf(&self) -> bool {
        self.state.wf()
    }

    /// A store with no bindings, persisted under the home directory.
    pub fn new() -> (r: Self)
        ensures
            r.wf(),
            r@ == Map::<i64, Seq<char>>::empty(),
    {
        let home = home_or_tmp();
        WorkspaceManager {
            state: TenantMap::new(),
            state_file: join_path(home.as_str(), ".mini-claw/workspaces.json"),
        }
    }

    /// The file the bindings are persisted in.
    pub fn state_file(&self) -> (r: &String) {
        &self.state_file
    }

    /// Replaces the bindings with those persisted in `text`; where `text` is no JSON object
    /// of strings there were none.
    pub fn load_json(&mut self, text: &str)
        ensures
            final(self).wf(),
            final(self)@ == match json_string_pairs(text@) {
                Some(p) => map_of_pairs(p),
                None => Map::empty(),
            },
    {
        self.state = TenantMap::from_json(text);
    }

    /// The persisted text of the bindings.
    pub fn to_json(&self) -> (r: String)
        requires
            self.wf(),
        ensures
            exists|s: Seq<(i64, String)>|
                keys_distinct(s) && map_of(s) == self@ && r@ == json_pretty_pairs(
                    #[trigger] rendered(s),
                ),
    {
        self.state.to_json()
    }

    /// The directory bound to `chat_id`, if any; it is used only while it is a directory.
    pub fn mapped_workspace(&self, chat_id: i64) -> (r: Option<String>)
        requires
            self.wf(),
        ensures
            match r {
                Some(p) => self@.contains_key(chat_id) && self@[chat_id] == p@,
                None => !self@.contains_key(chat_id),
            },
    {
        self.state.get(chat_id)
    }

    /// Binds `chat_id` to the directory `path`, once it is known to be one.
    pub fn commit_workspace(&mut self, chat_id: i64, path: &str)
        requires
            old(self).wf(),
        ensures
            final(self).wf(),
            final(self)@ == old(self)@.insert(chat_id, path@),
    {
        self.state.insert(chat_id, String::from_str(path));
    }

    /// `path` with the home directory written `~`.
    pub fn format_path(path: &str) -> (r: String)
        ensures
            exists|home: Seq<char>| r@ == #[trigger] home_relative(path@, home),
    {
        let home = home_or_tmp();
        format_path_with_home(path, home.as_str())
    }
}

/// The workspace a tenant works in: the bound directory while it is one, else `home`.
pub fn choose_workspace(mapped: Option<String>, mapped_is_dir: bool, home: String) -> (r: String)
    ensures
        r@ == match mapped {
            Some(p) => if mapped_is_dir {
                p@
            } else {
                home@
            },
            None => home@,
        },
{
    match mapped {
        Some(p) => if mapped_is_dir {
            p
        } else {
            home
        },
        None => home,
    }
}

/// How a requested workspace path reads, with `home` for `~`.
pub fn interpret_input(input: &str, home: &str) -> (r: WorkspaceInput)
    ensures
        r@ == input_meaning(input@, home@),
{
    let cs = chars_of(input);
    if cs.len() > 0 && cs[0] == '~' {
        let t = skip_char(&cs, 0, '~');
        let s = skip_char(&cs, t, '/');
        let rest = string_of_range(&cs, s, cs.len());
        assert(rest@ =~= input@.skip(s as int));
        WorkspaceInput::Absolute(join_path(home, rest.as_str()))
    } else if cs.len() > 0 && cs[0] == '/' {
        WorkspaceInput::Absolute(String::from_str(input))
    } else {
        WorkspaceInput::Relative(String::from_str(input))
    }
}

/// Fails unless `path` exists and is a directory.
pub fn check_directory(path: &str, exists: bool, is_dir: bool) -> (r: Result<(), MiniClawError>)
    ensures
        match directory_check(path@, exists, is_dir) {
            Some(m) => r matches Err(MiniClawError::Workspace(e)) && e@ == m,
            None => r is Ok,
        },
{
    if !exists {
        let mut m = String::from_str("Directory not found: ");
        m.append(path);
        Err(MiniClawError::Workspace(m))
    } else if !is_dir {
        let mut m = String::from_str("Not a directory: ");
        m.append(path);
        Err(MiniClawError::Workspace(m))
    } else {
        Ok(())
    }
}

/// `path` with `home` written `~`.
pub fn format_path_with_home(path: &str, home: &str) -> (r: String)
    ensures
        r@ == home_relative(path@, home@),
{
    let p = chars_of(path);
    let h = chars_of(home);
    if crate::text::same_text(path, home) {
        return String::from_str("~");
    }
    let mut prefix = h.len() <= p.len();
    let mut i: usize = 0;
    while prefix && i < h.len()
        invariant
            p@ == path@,
            h@ == home@,
            prefix ==> h@.len() <= p@.len(),
            i <= h@.len(),
            prefix ==> forall|k: int| 0 <= k < i ==> p@[k] == h@[k],
            !prefix ==> !(h@.len() <= p@.len() && p@.take(h@.len() as int) == h@),
        decreases h@.len() - i + (if prefix {
            1int
        } else {
            0int
        }),
    {
        if p[i] != h[i] {
            assert(p@.take(h@.len() as int)[i as int] != h@[i as int]);
            prefix = false;
        } else {
            i += 1;
        }
    }
    if prefix {
        assert(p@.take(h@.len() as int) =~= h@);
        let mut r = String::from_str("~");
        let rest = string_of_range(&p, h.len(), p.len());
        r.append(rest.as_str());
        proof {
            reveal_strlit("~");
        }
        r
    } else {
        String::from_str(path)
    }
}

} // verus!
