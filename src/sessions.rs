use vstd::multiset::Multiset;
use vstd::prelude::*;

use crate::error::MiniClawError;
use crate::home::home_or_tmp;
use crate::patterns::{first_group, regex_group};
use crate::tenant_map::{
    json_pretty_pairs, json_string_pairs, keys_distinct, map_of, map_of_pairs, rendered, TenantMap,
};
use crate::text::{chars_of, join_path, push_signed_decimal, same_text, signed_decimal};

verus! {

/// The canonical session file name of a tenant: `telegram-<id>.jsonl`.
pub open spec fn session_file_name(chat_id: int) -> Seq<char> {
    "telegram-"@ + signed_decimal(chat_id) + ".jsonl"@
}

/// The name under which a tenant's canonical session is archived at `timestamp`.
pub open spec fn archive_file_name(chat_id: int, timestamp: Seq<char>) -> Seq<char> {
    "telegram-"@ + signed_decimal(chat_id) + "-"@ + timestamp + ".jsonl"@
}

/// The session file a tenant is bound to: its binding, else the canonical name.
pub open spec fn active_name(bindings: Map<i64, Seq<char>>, chat_id: i64) -> Seq<char> {
    if bindings.contains_key(chat_id) {
        bindings[chat_id]
    } else {
        session_file_name(chat_id as int)
    }
}

/// The file work a switch of session needs, in the session directory.
pub enum SwitchPlan {
    /// The target is already the active session: nothing to do.
    AlreadyActive,
    /// First rename the canonical file to `archive_to`, if given; then, if `copy_target`,
    /// copy the target file onto the canonical path; then bind the tenant to the target.
    Switch { archive_to: Option<String>, copy_target: bool },
}

pub ghost enum SwitchPlanView {
    AlreadyActive,
    Switch { archive_to: Option<Seq<char>>, copy_target: bool },
}

impl View for SwitchPlan {
    type V = SwitchPlanView;

    open spec fn view(&self) -> SwitchPlanView {
        match self {
            SwitchPlan::AlreadyActive => SwitchPlanView::AlreadyActive,
            SwitchPlan::Switch { archive_to, copy_target } => SwitchPlanView::Switch {
                archive_to: match archive_to {
                    Some(a) => Some(a@),
                    None => None,
                },
                copy_target: *copy_target,
            },
        }
    }
}

/// What switching `chat_id` to `target` takes: nothing if it is active already; a
/// "not found" error if the target file is missing; else the archive of an existing
/// canonical file, then a copy of the target onto the canonical path (both skipped where
/// the target is the canonical file itself).
pub open spec fn switch_plan(
    bindings: Map<i64, Seq<char>>,
    chat_id: i64,
    target: Seq<char>,
    target_exists: bool,
    canonical_exists: bool,
    timestamp: Seq<char>,
) -> Result<SwitchPlanView, Seq<char>> {
    if active_name(bindings, chat_id) == target {
        Ok(SwitchPlanView::AlreadyActive)
    } else if !target_exists {
        Err("Session not found: "@ + target)
    } else {
        let is_canonical = target == session_file_name(chat_id as int);
        Ok(
            SwitchPlanView::Switch {
                archive_to: if canonical_exists && !is_canonical {
                    Some(archive_file_name(chat_id as int, timestamp))
                } else {
                    None
                },
                copy_target: !is_canonical,
            },
        )
    }
}

pub open spec fn plan_view(r: Result<SwitchPlan, MiniClawError>) -> Result<SwitchPlanView, Seq<char>> {
    match r {
        Ok(p) => Ok(p@),
        Err(MiniClawError::Session(m)) => Err(m@),
        Err(_) => Err(Seq::empty()),
    }
}

/// The session bindings of all tenants.
pub struct SessionManager {
    active_sessions: TenantMap,
    active_sessions_file: String,
}

impl View for SessionManager {
    /// Each bound tenant's session file name.
    type V = Map<i64, Seq<char>>;

    closed spec fn view(&self) -> Map<i64, Seq<char>> {
        self.active_sessions@
    }
}

impl SessionManager {
    pub closed spec fn wf(&self) -> bool {
        self.active_sessions.wf()
    }

    /// A store with no bindings, persisted under the home directory.
    pub fn new() -> (r: Self)
        ensures
            r.wf(),
            r@ == Map::<i64, Seq<char>>::empty(),
    {
        let home = home_or_tmp();
        SessionManager {
            active_sessions: TenantMap::new(),
            active_sessions_file: join_path(home.as_str(), ".mini-claw/active-sessions.json"),
        }
    }

    /// The file the bindings are persisted in.
    pub fn state_file(&self) -> (r: &String) {
        &self.active_sessions_file
    }

    /// Replaces the bindings with those persisted in `text`; where `text` is no JSON object
    /// of strings there were none.
    pub fn load_json(&mut self, text: &str)
        ensures
            final(self).wf(),
            final(self)@ == match json_string_pairs(text@) {
                Some(p) => map_of_pairs(p),
                None => Map::empty(),
            },
    {
        self.active_sessions = TenantMap::from_json(text);
    }

    /// The persisted text of the bindings.
    pub fn to_json(&self) -> (r: String)
        requires
            self.wf(),
        ensures
            exists|s: Seq<(i64, String)>|
                keys_distinct(s) && map_of(s) == self@ && r@ == json_pretty_pairs(
                    #[trigger] rendered(s),
                ),
    {
        self.active_sessions.to_json()
    }

    /// The canonical session file name of a tenant.
    pub fn default_session_filename(chat_id: i64) -> (r: String)
        ensures
            r@ == session_file_name(chat_id as int),
    {
        let mut s = String::from_str("telegram-");
        push_signed_decimal(&mut s, chat_id);
        s.append(".jsonl");
        s
    }

    /// The session file a tenant is bound to.
    pub fn get_active_session_filename(&self, chat_id: i64) -> (r: String)
        requires
            self.wf(),
        ensures
            r@ == active_name(self@, chat_id),
    {
        match self.active_sessions.get(chat_id) {
            Some(name) => name,
            None => Self::default_session_filename(chat_id),
        }
    }

    /// Decides what switching `chat_id` to `target` takes, given whether the target file
    /// and the canonical file exist, and the timestamp to archive under.
    pub fn plan_switch(
        &self,
        chat_id: i64,
        target: &str,
        target_exists: bool,
        canonical_exists: bool,
        timestamp: &str,
    ) -> (r: Result<SwitchPlan, MiniClawError>)
        requires
            self.wf(),
        ensures
            plan_view(r) == switch_plan(
                self@,
                chat_id,
                target@,
                target_exists,
                canonical_exists,
                timestamp@,
            ),
            r is Err ==> r matches Err(MiniClawError::Session(_)),
    {
        let current = self.get_active_session_filename(chat_id);
        if same_text(current.as_str(), target) {
            return Ok(SwitchPlan::AlreadyActive);
        }
        if !target_exists {
            let mut msg = String::from_str("Session not found: ");
            msg.append(target);
            return Err(MiniClawError::Session(msg));
        }
        let canonical = Self::default_session_filename(chat_id);
        let is_canonical = same_text(target, canonical.as_str());
        let archive_to = if canonical_exists && !is_canonical {
            Some(archive_filename(chat_id, timestamp))
        } else {
            None
        };
        Ok(SwitchPlan::Switch { archive_to, copy_target: !is_canonical })
    }

    /// Binds `chat_id` to `target`, once the files are in place.
    pub fn commit_switch(&mut self, chat_id: i64, target: &str)
        requires
            old(self).wf(),
        ensures
            final(self).wf(),
            final(self)@ == old(self)@.insert(chat_id, target@),
    {
        self.active_sessions.insert(chat_id, String::from_str(target));
    }

    /// Drops the binding of `chat_id`: it reverts to its canonical session.
    pub fn clear_active_session(&mut self, chat_id: i64)
        requires
            old(self).wf(),
        ensures
            final(self).wf(),
            final(self)@ == old(self)@.remove(chat_id),
    {
        self.active_sessions.remove(chat_id);
    }
}

/// The name under which a tenant's canonical session is archived at `timestamp`.
pub fn archive_filename(chat_id: i64, timestamp: &str) -> (r: String)
    ensures
        r@ == archive_file_name(chat_id as int, timestamp@),
{
    let mut s = String::from_str("telegram-");
    push_signed_decimal(&mut s, chat_id);
    s.append("-");
    s.append(timestamp);
    s.append(".jsonl");
    s
}

/// A switch that succeeds leaves the target active: it was active already, or it is once
/// the switch is committed.
pub proof fn lemma_switch_binds_target(
    bindings: Map<i64, Seq<char>>,
    chat_id: i64,
    target: Seq<char>,
    target_exists: bool,
    canonical_exists: bool,
    timestamp: Seq<char>,
)
    requires
        switch_plan(bindings, chat_id, target, target_exists, canonical_exists, timestamp) is Ok,
    ensures
        switch_plan(bindings, chat_id, target, target_exists, canonical_exists, timestamp)
            == Ok::<SwitchPlanView, Seq<char>>(SwitchPlanView::AlreadyActive) ==> active_name(
            bindings,
            chat_id,
        ) == target,
        switch_plan(bindings, chat_id, target, target_exists, canonical_exists, timestamp)
            != Ok::<SwitchPlanView, Seq<char>>(SwitchPlanView::AlreadyActive) ==> active_name(
            bindings.insert(chat_id, target),
            chat_id,
        ) == target,
{
}

/// A switch that does work archives the existing canonical file exactly once, under the
/// tenant's archive name, before the target is copied over it; and it never archives where
/// the canonical file is absent.
pub proof fn lemma_switch_archives_once(
    bindings: Map<i64, Seq<char>>,
    chat_id: i64,
    target: Seq<char>,
    canonical_exists: bool,
    timestamp: Seq<char>,
)
    requires
        active_name(bindings, chat_id) != target,
        target != session_file_name(chat_id as int),
    ensures
        switch_plan(bindings, chat_id, target, true, canonical_exists, timestamp) == Ok::<
            SwitchPlanView,
            Seq<char>,
        >(
            SwitchPlanView::Switch {
                archive_to: if canonical_exists {
                    Some(archive_file_name(chat_id as int, timestamp))
                } else {
                    None
                },
                copy_target: true,
            },
        ),
{
}

/// A session file found in the session directory.
#[derive(Debug, Clone)]
pub struct SessionInfo {
    pub filename: String,
    /// The tenant the file belongs to, as written in its name, or `unknown`.
    pub chat_id: String,
    pub path: String,
    /// Last modification, in milliseconds after the epoch.
    pub modified_ms: u64,
    pub size_bytes: u64,
    pub title: Option<String>,
}

/// The pattern of a session file name; group 1 is the tenant id, an optional minus sign and
/// decimal digits.
pub const TENANT_PATTERN: &'static str = "^telegram-(-?\\d+)";

/// The tenant id written in a session file name, or `unknown`.
pub open spec fn tenant_text(name: Seq<char>) -> Seq<char> {
    match regex_group(TENANT_PATTERN@, name) {
        Some(id) => id,
        None => "unknown"@,
    }
}

/// Whether a file name is that of a session log.
pub open spec fn is_session_name(name: Seq<char>) -> bool {
    let x = ".jsonl"@;
    name.len() >= x.len() && name.skip(name.len() - x.len()) == x
}

fn ends_with_text(s: &Vec<char>, x: &str) -> (r: bool)
    ensures
        r == (x@.len() <= s@.len() && s@.skip(s@.len() - x@.len()) == x@),
{
    let xc = chars_of(x);
    if xc.len() > s.len() {
        return false;
    }
    let off = s.len() - xc.len();
    let mut i: usize = 0;
    while i < xc.len()
        invariant
            xc@ == x@,
            off + xc@.len() == s@.len(),
            s@.len() <= usize::MAX,
            i <= xc@.len(),
            forall|k: int| 0 <= k < i ==> s@[off + k] == xc@[k],
        decreases xc@.len() - i,
    {
        if s[off + i] != xc[i] {
            assert(s@.skip(off as int)[i as int] != x@[i as int]);
            return false;
        }
        i += 1;
    }
    assert(s@.skip(off as int) =~= x@);
    true
}

/// Whether a file name is that of a session log.
pub fn is_session_file(name: &str) -> (r: bool)
    ensures
        r == is_session_name(name@),
{
    let cs = chars_of(name);
    ends_with_text(&cs, ".jsonl")
}

/// The tenant id written in a session file name, or `unknown`.
pub fn session_tenant(name: &str) -> (r: String)
    ensures
        r@ == tenant_text(name@),
{
    match first_group(TENANT_PATTERN, name) {
        Some(id) => id,
        None => String::from_str("unknown"),
    }
}

/// A directory entry as a session, if its name is that of a session log.
pub fn session_info(filename: String, path: String, modified_ms: u64, size_bytes: u64) -> (r: Option<SessionInfo>)
    ensures
        r is Some == is_session_name(filename@),
        r matches Some(i) ==> i.filename@ == filename@ && i.chat_id@ == tenant_text(filename@)
            && i.path@ == path@ && i.modified_ms == modified_ms && i.size_bytes == size_bytes
            && i.title is None,
{
    if !is_session_file(filename.as_str()) {
        return None;
    }
    let chat_id = session_tenant(filename.as_str());
    Some(SessionInfo { filename, chat_id, path, modified_ms, size_bytes, title: None })
}

pub open spec fn newest_first(s: Seq<SessionInfo>) -> bool {
    forall|i: int, j: int| 0 <= i < j < s.len() ==> s[i].modified_ms >= s[j].modified_ms
}

/// Orders sessions newest first; sessions modified at the same time keep their order.
pub fn sort_newest_first(sessions: Vec<SessionInfo>) -> (r: Vec<SessionInfo>)
    ensures
        newest_first(r@),
        r@.to_multiset() == sessions@.to_multiset(),
{
    broadcast use vstd::seq_lib::group_to_multiset_ensures;

    let mut input = sessions;
    let mut out: Vec<SessionInfo> = Vec::new();
    while input.len() > 0
        invariant
            newest_first(out@),
            out@.to_multiset().add(input@.to_multiset()) == sessions@.to_multiset(),
        decreases input@.len(),
    {
        let ghost before_in = input@;
        let ghost before_out = out@;
        let x = input.pop().unwrap();
        assert(before_in == input@.push(x));
        let mut p: usize = 0;
        while p < out.len() && out[p].modified_ms > x.modified_ms
            invariant
                p <= out@.len(),
                forall|k: int| 0 <= k < p ==> out@[k].modified_ms > x.modified_ms,
            decreases out@.len() - p,
        {
            p += 1;
        }
        out.insert(p, x);
        proof {
            vstd::seq_lib::to_multiset_insert(before_out, p as int, x);
            vstd::seq_lib::to_multiset_build(input@, x);
            assert(before_in.to_multiset() == input@.to_multiset().insert(x));
            assert(out@.to_multiset() == before_out.to_multiset().insert(x));
            assert(out@.to_multiset().add(input@.to_multiset()) =~= sessions@.to_multiset());
        }
    }
    assert(input@.to_multiset() =~= Multiset::empty());
    assert(out@.to_multiset().add(Multiset::empty()) =~= out@.to_multiset());
    out
}

/// Whether session `j` of the list outranks session `i` for retention: it belongs to the
/// same tenant and is newer, or as new and listed earlier.
pub open spec fn outranks(s: Seq<SessionInfo>, j: int, i: int) -> bool {
    s[j].chat_id@ == s[i].chat_id@ && (s[j].modified_ms > s[i].modified_ms || (
    s[j].modified_ms == s[i].modified_ms && j < i))
}

/// How many of the first `n` sessions outrank session `i`.
pub open spec fn outranked_by(s: Seq<SessionInfo>, i: int, n: int) -> nat
    decreases n,
{
    if n <= 0 {
        0
    } else {
        outranked_by(s, i, n - 1) + if outranks(s, n - 1, i) {
            1nat
        } else {
            0nat
        }
    }
}

/// Whether retention deletes session `i`: its tenant has `keep` sessions that outrank it.
pub open spec fn expired(s: Seq<SessionInfo>, i: int, keep: nat) -> bool {
    outranked_by(s, i, s.len() as int) >= keep
}

proof fn lemma_outranked_by_le(s: Seq<SessionInfo>, i: int, n: int)
    ensures
        n >= 0 ==> outranked_by(s, i, n) <= n,
    decreases n,
{
    if n > 0 {
        lemma_outranked_by_le(s, i, n - 1);
    }
}

/// The sessions that retention deletes, keeping the newest `keep_count` of each tenant; as
/// positions in the list, in increasing order.
pub fn sessions_to_delete(sessions: &Vec<SessionInfo>, keep_count: usize) -> (r: Vec<usize>)
    ensures
        forall|k: int| 0 <= k < r@.len() ==> r@[k] < sessions@.len() && expired(sessions@, #[trigger] r@[k] as int, keep_count as nat),
        forall|k1: int, k2: int| 0 <= k1 < k2 < r@.len() ==> r@[k1] < r@[k2],
        forall|i: int| 0 <= i < sessions@.len() && expired(sessions@, i, keep_count as nat) ==> r@.contains(i as usize),
{
    let ghost s = sessions@;
    let mut out: Vec<usize> = Vec::new();
    let mut i: usize = 0;
    while i < sessions.len()
        invariant
            s == sessions@,
            i <= s.len(),
            forall|k: int| 0 <= k < out@.len() ==> out@[k] < i && expired(s, #[trigger] out@[k] as int, keep_count as nat),
            forall|k1: int, k2: int| 0 <= k1 < k2 < out@.len() ==> out@[k1] < out@[k2],
            forall|m: int| 0 <= m < i && expired(s, m, keep_count as nat) ==> out@.contains(m as usize),
        decreases s.len() - i,
    {
        let mut count: usize = 0;
        let mut j: usize = 0;
        while j < sessions.len()
            invariant
                s == sessions@,
                i < s.len(),
                j <= s.len(),
                count == outranked_by(s, i as int, j as int),
            decreases s.len() - j,
        {
            proof {
                lemma_outranked_by_le(s, i as int, j as int);
            }
            let a = &sessions[j];
            let b = &sessions[i];
            if same_text(a.chat_id.as_str(), b.chat_id.as_str()) && (a.modified_ms > b.modified_ms
                || (a.modified_ms == b.modified_ms && j < i)) {
                count += 1;
            }
            j += 1;
        }
        let ghost before = out@;
        if count >= keep_count {
            out.push(i);
            proof {
                assert forall|m: int| 0 <= m < i + 1 && expired(s, m, keep_count as nat) implies out@.contains(m as usize) by {
                    if m < i {
                        let k = choose|k: int| 0 <= k < before.len() && before[k] == m as usize;
                        assert(out@[k] == m as usize);
                    } else {
                        assert(out@[before.len() as int] == i);
                    }
                }
            }
        } else {
            proof {
                assert forall|m: int| 0 <= m < i + 1 && expired(s, m, keep_count as nat) implies out@.contains(m as usize) by {
                    assert(m != i);
                }
            }
        }
        i += 1;
    }
    out
}

proof fn lemma_outranked_by_mono(s: Seq<SessionInfo>, i: int, j: int, n: int)
    requires
        forall|k: int| 0 <= k < n && outranks(s, k, i) ==> outranks(s, k, j),
    ensures
        n >= 0 ==> outranked_by(s, i, n) <= outranked_by(s, j, n),
    decreases n,
{
    if n > 0 {
        lemma_outranked_by_mono(s, i, j, n - 1);
    }
}

proof fn lemma_outranked_by_strict(s: Seq<SessionInfo>, i: int, j: int, n: int, m: int)
    requires
        forall|k: int| 0 <= k < n && outranks(s, k, i) ==> outranks(s, k, j),
        0 <= m < n,
        outranks(s, m, j),
        !outranks(s, m, i),
    ensures
        outranked_by(s, i, n) + 1 <= outranked_by(s, j, n),
    decreases n,
{
    if m < n - 1 {
        lemma_outranked_by_strict(s, i, j, n - 1, m);
    } else {
        lemma_outranked_by_mono(s, i, j, n - 1);
    }
}

/// Retention keeps the newest: of two sessions of one tenant, where one is deleted and the
/// other kept, the kept one is at least as new.
pub proof fn lemma_retention_keeps_newest(s: Seq<SessionInfo>, keep: nat, i: int, j: int)
    requires
        0 <= i < s.len(),
        0 <= j < s.len(),
        s[i].chat_id@ == s[j].chat_id@,
        expired(s, i, keep),
        !expired(s, j, keep),
    ensures
        s[j].modified_ms >= s[i].modified_ms,
{
    if s[j].modified_ms < s[i].modified_ms {
        lemma_outranked_by_strict(s, i, j, s.len() as int, i);
    }
}

/// How many of the first `n` sessions belong to tenant `chat_id`.
pub open spec fn tenant_count(s: Seq<SessionInfo>, chat_id: Seq<char>, n: int) -> nat
    decreases n,
{
    if n <= 0 {
        0
    } else {
        tenant_count(s, chat_id, n - 1) + if s[n - 1].chat_id@ == chat_id {
            1nat
        } else {
            0nat
        }
    }
}

proof fn lemma_outranked_below_count(s: Seq<SessionInfo>, i: int, n: int)
    requires
        0 <= i < s.len(),
        0 <= n <= s.len(),
    ensures
        outranked_by(s, i, n) + (if i < n {
            1nat
        } else {
            0nat
        }) <= tenant_count(s, s[i].chat_id@, n),
    decreases n,
{
    if n > 0 {
        lemma_outranked_below_count(s, i, n - 1);
    }
}

/// Retention spares small tenants: a tenant with at most `keep` sessions loses none.
pub proof fn lemma_retention_spares_small_tenants(s: Seq<SessionInfo>, keep: nat, i: int)
    requires
        0 <= i < s.len(),
        tenant_count(s, s[i].chat_id@, s.len() as int) <= keep,
    ensures
        !expired(s, i, keep),
{
    lemma_outranked_below_count(s, i, s.len() as int);
}

/// The positions of tenant `chat_id`'s sessions among the first `n`.
pub open spec fn tenant_positions(s: Seq<SessionInfo>, chat_id: Seq<char>, n: int) -> Set<int> {
    Set::new(|i: int| 0 <= i < n && s[i].chat_id@ == chat_id)
}

/// The positions of tenant `chat_id`'s sessions that retention deletes.
pub open spec fn expired_positions(s: Seq<SessionInfo>, chat_id: Seq<char>, keep: nat) -> Set<int> {
    Set::new(
        |i: int| 0 <= i < s.len() && s[i].chat_id@ == chat_id && expired(s, i, keep),
    )
}

proof fn lemma_tenant_positions_len(s: Seq<SessionInfo>, chat_id: Seq<char>, n: int)
    requires
        0 <= n <= s.len(),
    ensures
        tenant_positions(s, chat_id, n).finite(),
        tenant_positions(s, chat_id, n).len() == tenant_count(s, chat_id, n),
    decreases n,
{
    if n == 0 {
        assert(tenant_positions(s, chat_id, n) =~= Set::<int>::empty());
    } else {
        lemma_tenant_positions_len(s, chat_id, n - 1);
        let before = tenant_positions(s, chat_id, n - 1);
        if s[n - 1].chat_id@ == chat_id {
            assert(tenant_positions(s, chat_id, n) =~= before.insert(n - 1));
        } else {
            assert(tenant_positions(s, chat_id, n) =~= before);
        }
    }
}

proof fn lemma_outranking_lowers_rank(s: Seq<SessionInfo>, i: int, j: int)
    requires
        0 <= i < s.len(),
        0 <= j < s.len(),
        outranks(s, j, i),
    ensures
        outranked_by(s, j, s.len() as int) + 1 <= outranked_by(s, i, s.len() as int),
{
    lemma_outranked_by_strict(s, j, i, s.len() as int, j);
}

/// Retention keeps exactly `keep` sessions of a tenant that has at least that many: it
/// deletes the other `count - keep`.
pub proof fn lemma_retention_count(s: Seq<SessionInfo>, chat_id: Seq<char>, keep: nat)
    requires
        keep <= tenant_count(s, chat_id, s.len() as int),
    ensures
        expired_positions(s, chat_id, keep).finite(),
        expired_positions(s, chat_id, keep).len() == tenant_count(s, chat_id, s.len() as int)
            - keep,
{
    let n = s.len() as int;
    let t = tenant_positions(s, chat_id, n);
    let count = tenant_count(s, chat_id, n);
    let rank = |i: int| outranked_by(s, i, n) as int;
    lemma_tenant_positions_len(s, chat_id, n);
    assert(vstd::relations::injective_on(rank, t)) by {
        assert forall|i: int, j: int| t.contains(i) && t.contains(j) && #[trigger] rank(i) == #[trigger] rank(j) implies i == j by {
            if i != j {
                if outranks(s, j, i) {
                    lemma_outranking_lowers_rank(s, i, j);
                } else {
                    assert(outranks(s, i, j));
                    lemma_outranking_lowers_rank(s, j, i);
                }
            }
        }
    }
    let ranks = t.map(rank);
    vstd::set_lib::lemma_map_size(t, ranks, rank);
    vstd::set_lib::lemma_int_range(0, count as int);
    let all = vstd::set_lib::set_int_range(0, count as int);
    assert(ranks.subset_of(all)) by {
        assert forall|r: int| ranks.contains(r) implies all.contains(r) by {
            let i = choose|i: int| t.contains(i) && rank(i) == r;
            lemma_outranked_below_count(s, i, n);
        }
    }
    vstd::set_lib::lemma_subset_equality(ranks, all);
    let e = expired_positions(s, chat_id, keep);
    assert(e.subset_of(t));
    vstd::set_lib::lemma_len_subset(e, t);
    assert(vstd::relations::injective_on(rank, e));
    let top = vstd::set_lib::set_int_range(keep as int, count as int);
    assert(e.map(rank) =~= top) by {
        assert forall|r: int| top.contains(r) implies e.map(rank).contains(r) by {
            assert(all.contains(r));
            assert(ranks.contains(r));
            let i = choose|i: int| t.contains(i) && rank(i) == r;
            assert(e.contains(i));
        }
        assert forall|r: int| e.map(rank).contains(r) implies top.contains(r) by {
            let i = choose|i: int| e.contains(i) && rank(i) == r;
            assert(ranks.contains(r));
        }
    }
    vstd::set_lib::lemma_map_size(e, top, rank);
    vstd::set_lib::lemma_int_range(keep as int, count as int);
}

} // verus!
