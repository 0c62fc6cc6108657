use vstd::prelude::*;

use crate::error::MiniClawError;
use crate::text::{
    chars_of, eq_ignoring_case, equals_ignoring_case, i64_text, join_path, parse_i64, parse_u64,
    path_join, string_of_range, trim, trimmed, u64_text,
};
use crate::workspace::{char_run, skip_char};

verus! {

/// How much the agent is asked to think before it answers.
#[derive(Debug, Clone, Copy, PartialEq, Eq, Structural)]
pub enum ThinkingLevel {
    Low,
    Medium,
    High,
}

/// The word that names a level on the agent's command line.
pub open spec fn level_text(l: ThinkingLevel) -> Seq<char> {
    match l {
        ThinkingLevel::Low => "low"@,
        ThinkingLevel::Medium => "medium"@,
        ThinkingLevel::High => "high"@,
    }
}

/// The level that a setting names: `medium` or `high` in any case, anything else low.
pub open spec fn level_named(s: Seq<char>) -> ThinkingLevel {
    if equals_ignoring_case(s, "medium"@) {
        ThinkingLevel::Medium
    } else if equals_ignoring_case(s, "high"@) {
        ThinkingLevel::High
    } else {
        ThinkingLevel::Low
    }
}

impl ThinkingLevel {
    /// The word that names this level.
    pub fn as_str(&self) -> (r: &'static str)
        ensures
            r@ == level_text(*self),
    {
        match self {
            ThinkingLevel::Low => "low",
            ThinkingLevel::Medium => "medium",
            ThinkingLevel::High => "high",
        }
    }

    /// The word that names this level, as an owned string.
    pub fn to_string(&self) -> (r: String)
        ensures
            r@ == level_text(*self),
    {
        String::from_str(self.as_str())
    }

    /// Reads a level setting, ignoring case; what names no level reads as low.
    pub fn from_str(s: &str) -> (r: ThinkingLevel)
        ensures
            r == level_named(s@),
    {
        if eq_ignoring_case(s, "medium") {
            ThinkingLevel::Medium
        } else if eq_ignoring_case(s, "high") {
            ThinkingLevel::High
        } else {
            ThinkingLevel::Low
        }
    }
}

/// The settings the service runs with; paths are held as text.
#[derive(Debug, Clone)]
pub struct Config {
    pub telegram_token: String,
    pub workspace: String,
    pub session_dir: String,
    pub thinking_level: ThinkingLevel,
    pub allowed_users: Vec<i64>,
    pub rate_limit_cooldown_ms: u64,
    pub pi_timeout_ms: u64,
    pub shell_timeout_ms: u64,
    pub session_title_timeout_ms: u64,
}

impl Config {
    /// Whether a user may use the service: everyone where no users are listed, else only
    /// the listed ones; a message with no sender is refused then.
    pub fn allows(&self, user: Option<i64>) -> (r: bool)
        ensures
            r == (self.allowed_users@.len() == 0 || (user matches Some(u)
                && self.allowed_users@.contains(u))),
    {
        if self.allowed_users.len() == 0 {
            return true;
        }
        let u = match user {
            Some(u) => u,
            None => return false,
        };
        let mut i: usize = 0;
        while i < self.allowed_users.len()
            invariant
                user == Some(u),
                i <= self.allowed_users@.len(),
                forall|k: int| 0 <= k < i ==> self.allowed_users@[k] != u,
            decreases self.allowed_users@.len() - i,
        {
            if self.allowed_users[i] == u {
                assert(self.allowed_users@[i as int] == u);
                assert(self.allowed_users@.contains(u));
                return true;
            }
            i += 1;
        }
        false
    }
}

/// The raw settings, as the environment holds them.
pub struct Settings {
    pub telegram_token: Option<String>,
    pub workspace: Option<String>,
    pub session_dir: Option<String>,
    pub thinking_level: Option<String>,
    pub allowed_users: Option<String>,
    pub rate_limit_cooldown_ms: Option<String>,
    pub pi_timeout_ms: Option<String>,
    pub shell_timeout_ms: Option<String>,
    pub session_title_timeout_ms: Option<String>,
}

pub const DEFAULT_COOLDOWN_MS: u64 = 5000;

pub const DEFAULT_PI_TIMEOUT_MS: u64 = 300_000;

pub const DEFAULT_SHELL_TIMEOUT_MS: u64 = 60_000;

pub const DEFAULT_TITLE_TIMEOUT_MS: u64 = 10_000;

/// A setting trimmed, where it is set and not blank.
pub open spec fn nonblank(o: Option<String>) -> Option<Seq<char>> {
    match o {
        Some(s) => if trim(s@).len() > 0 {
            Some(trim(s@))
        } else {
            None
        },
        None => None,
    }
}

/// A path setting with a leading `~` (and the slashes after it) standing for `home`.
pub open spec fn expanded(t: Seq<char>, home: Seq<char>) -> Seq<char> {
    if t.len() > 0 && t[0] == '~' {
        path_join(home, t.skip(1 + char_run(t, 1, '/')))
    } else {
        t
    }
}

/// A path setting, or `default` where it is unset or blank.
pub open spec fn path_setting(o: Option<String>, home: Seq<char>, default: Seq<char>) -> Seq<char> {
    match nonblank(o) {
        Some(t) => expanded(t, home),
        None => default,
    }
}

/// A number setting, or `default` where it is unset or no number.
pub open spec fn number_setting(o: Option<String>, default: u64) -> nat {
    match o {
        Some(s) => match u64_text(trim(s@)) {
            Some(v) => v,
            None => default as nat,
        },
        None => default as nat,
    }
}

/// The pieces of `s` from `from` on, split at commas.
pub open spec fn comma_pieces(s: Seq<char>, from: int) -> Seq<Seq<char>>
    decreases s.len() - from,
{
    if from < 0 || from > s.len() {
        Seq::empty()
    } else {
        let e = from + comma_free_run(s, from);
        if e >= s.len() || e < from {
            seq![s.subrange(from, s.len() as int)]
        } else {
            seq![s.subrange(from, e)] + comma_pieces(s, e + 1)
        }
    }
}

/// How many characters from `from` on come before the next comma.
pub open spec fn comma_free_run(s: Seq<char>, from: int) -> int
    decreases s.len() - from,
{
    if from < 0 || from >= s.len() || s[from] == ',' {
        0
    } else {
        1 + comma_free_run(s, from + 1)
    }
}

proof fn lemma_comma_free_run_bounds(s: Seq<char>, from: int)
    ensures
        0 <= comma_free_run(s, from),
        0 <= from <= s.len() ==> from + comma_free_run(s, from) <= s.len(),
        0 <= from && from + comma_free_run(s, from) < s.len() ==> s[from + comma_free_run(s, from)] == ',',
    decreases s.len() - from,
{
    if !(from < 0 || from >= s.len() || s[from] == ',') {
        lemma_comma_free_run_bounds(s, from + 1);
    }
}

/// The ids among comma-separated pieces, each trimmed; pieces that are no id are skipped.
pub open spec fn ids_of(pieces: Seq<Seq<char>>) -> Seq<i64>
    decreases pieces.len(),
{
    if pieces.len() == 0 {
        Seq::empty()
    } else {
        let before = ids_of(pieces.drop_last());
        match i64_text(trim(pieces.last())) {
            Some(v) => before.push(v as i64),
            None => before,
        }
    }
}

/// The allowed users that a setting lists; none where it is unset or blank.
pub open spec fn users_setting(o: Option<String>) -> Seq<i64> {
    match nonblank(o) {
        Some(t) => ids_of(comma_pieces(t, 0)),
        None => Seq::empty(),
    }
}

fn nonblank_setting(o: &Option<String>) -> (r: Option<Vec<char>>)
    ensures
        match r {
            Some(t) => nonblank(*o) == Some(t@),
            None => nonblank(*o) is None,
        },
{
    match o {
        Some(s) => {
            let t = trimmed(s.as_str());
            if t.len() > 0 {
                Some(t)
            } else {
                None
            }
        },
        None => None,
    }
}

fn path_value(o: &Option<String>, home: &str, default: String) -> (r: String)
    ensures
        r@ == path_setting(*o, home@, default@),
{
    match nonblank_setting(o) {
        Some(t) => {
            if t[0] == '~' {
                let k = skip_char(&t, 1, '/');
                let rest = string_of_range(&t, k, t.len());
                assert(rest@ =~= t@.skip(1 + char_run(t@, 1, '/')));
                join_path(home, rest.as_str())
            } else {
                string_of_range(&t, 0, t.len())
            }
        },
        None => default,
    }
}

fn number_value(o: &Option<String>, default: u64) -> (r: u64)
    ensures
        r as nat == number_setting(*o, default),
{
    match o {
        Some(s) => match parse_u64(&trimmed(s.as_str())) {
            Some(v) => v,
            None => default,
        },
        None => default,
    }
}

/// The ids a comma-separated list names.
pub fn parse_user_ids(text: &Vec<char>) -> (r: Vec<i64>)
    ensures
        r@ == ids_of(comma_pieces(text@, 0)),
{
    let mut pieces: Vec<Vec<char>> = Vec::new();
    let mut from: usize = 0;
    let ghost all = comma_pieces(text@, 0);
    loop
        invariant_except_break
            pieces@.map_values(|p: Vec<char>| p@) + comma_pieces(text@, from as int) == all,
        invariant
            from <= text@.len(),
            all == comma_pieces(text@, 0),
        ensures
            pieces@.map_values(|p: Vec<char>| p@) == all,
        decreases text@.len() - from,
    {
        let mut e = from;
        proof {
            lemma_comma_free_run_bounds(text@, from as int);
        }
        while e < text.len() && text[e] != ','
            invariant
                from <= e <= text@.len(),
                from + comma_free_run(text@, from as int) == e + comma_free_run(text@, e as int),
            decreases text@.len() - e,
        {
            e += 1;
        }
        let mut piece: Vec<char> = Vec::new();
        let mut k = from;
        while k < e
            invariant
                from <= k <= e <= text@.len(),
                piece@ == text@.subrange(from as int, k as int),
            decreases e - k,
        {
            piece.push(text[k]);
            assert(text@.subrange(from as int, k + 1) == text@.subrange(from as int, k as int).push(text@[k as int]));
            k += 1;
        }
        let ghost before = pieces@;
        pieces.push(piece);
        assert(pieces@.map_values(|p: Vec<char>| p@) =~= before.map_values(|p: Vec<char>| p@).push(
            text@.subrange(from as int, e as int),
        ));
        if e >= text.len() {
            assert(pieces@.map_values(|p: Vec<char>| p@) + Seq::<Seq<char>>::empty() =~= all);
            break;
        }
        assert(pieces@.map_values(|p: Vec<char>| p@) + comma_pieces(text@, e + 1) =~= before.map_values(
            |p: Vec<char>| p@,
        ) + comma_pieces(text@, from as int));
        from = e + 1;
    }
    let ghost pv = pieces@.map_values(|p: Vec<char>| p@);
    assert(pv =~= all);
    let mut ids: Vec<i64> = Vec::new();
    let mut i: usize = 0;
    while i < pieces.len()
        invariant
            pv == pieces@.map_values(|p: Vec<char>| p@),
            i <= pieces@.len(),
            ids@ == ids_of(pv.take(i as int)),
        decreases pieces@.len() - i,
    {
        assert(pv.take(i + 1).drop_last() == pv.take(i as int));
        let piece = string_of_range(&pieces[i], 0, pieces[i].len());
        assert(piece@ =~= pv[i as int]);
        match parse_i64(&trimmed(piece.as_str())) {
            Some(v) => ids.push(v),
            None => {},
        }
        i += 1;
    }
    assert(pv.take(pieces@.len() as int) == pv);
    ids
}

/// The settings the service runs with, from the raw settings and the home directory; the
/// bot token is required.
pub fn config_from_settings(settings: &Settings, home: &str) -> (r: Result<Config, MiniClawError>)
    ensures
        match r {
            Ok(c) => {
                &&& nonblank(settings.telegram_token) == Some(c.telegram_token@)
                &&& c.workspace@ == path_setting(settings.workspace, home@, path_join(home@, "mini-claw-workspace"@))
                &&& c.session_dir@ == path_setting(settings.session_dir, home@, path_join(path_join(home@, ".mini-claw"@), "sessions"@))
                &&& c.thinking_level == match settings.thinking_level {
                    Some(t) => level_named(trim(t@)),
                    None => ThinkingLevel::Low,
                }
                &&& c.allowed_users@ == users_setting(settings.allowed_users)
                &&& c.rate_limit_cooldown_ms as nat == number_setting(settings.rate_limit_cooldown_ms, DEFAULT_COOLDOWN_MS)
                &&& c.pi_timeout_ms as nat == number_setting(settings.pi_timeout_ms, DEFAULT_PI_TIMEOUT_MS)
                &&& c.shell_timeout_ms as nat == number_setting(settings.shell_timeout_ms, DEFAULT_SHELL_TIMEOUT_MS)
                &&& c.session_title_timeout_ms as nat == number_setting(settings.session_title_timeout_ms, DEFAULT_TITLE_TIMEOUT_MS)
            },
            Err(e) => nonblank(settings.telegram_token) is None && (e matches MiniClawError::Config(m)
                && m@ == "TELEGRAM_BOT_TOKEN is required. Set it in .env file."@),
        },
{
    let token = match nonblank_setting(&settings.telegram_token) {
        Some(t) => string_of_range(&t, 0, t.len()),
        None => {
            return Err(MiniClawError::Config(String::from_str("TELEGRAM_BOT_TOKEN is required. Set it in .env file.")));
        },
    };
    let workspace = path_value(&settings.workspace, home, join_path(home, "mini-claw-workspace"));
    let dot_dir = join_path(home, ".mini-claw");
    let session_dir = path_value(&settings.session_dir, home, join_path(dot_dir.as_str(), "sessions"));
    let thinking_level = match &settings.thinking_level {
        Some(t) => {
            let tt = trimmed(t.as_str());
            let ts = string_of_range(&tt, 0, tt.len());
            assert(ts@ =~= trim(t@));
            ThinkingLevel::from_str(ts.as_str())
        },
        None => ThinkingLevel::Low,
    };
    let allowed_users = match nonblank_setting(&settings.allowed_users) {
        Some(t) => parse_user_ids(&t),
        None => Vec::new(),
    };
    Ok(Config {
        telegram_token: token,
        workspace,
        session_dir,
        thinking_level,
        allowed_users,
        rate_limit_cooldown_ms: number_value(&settings.rate_limit_cooldown_ms, DEFAULT_COOLDOWN_MS),
        pi_timeout_ms: number_value(&settings.pi_timeout_ms, DEFAULT_PI_TIMEOUT_MS),
        shell_timeout_ms: number_value(&settings.shell_timeout_ms, DEFAULT_SHELL_TIMEOUT_MS),
        session_title_timeout_ms: number_value(&settings.session_title_timeout_ms, DEFAULT_TITLE_TIMEOUT_MS),
    })
}

} // verus!
