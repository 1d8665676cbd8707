//! One habit: its settings, its day records and the ledger that counts them,
//! with the protocol by which a day is edited.
use vstd::prelude::*;

use crate::date::{calendar_date, date_text, HabitID};
use crate::entries::{
    entries_map, key_position, keys_unique, lemma_entries_map, lemma_entries_map_push,
    lemma_entries_map_update, lemma_key_position, lemma_key_position_at,
};
use crate::error::{HabitError, HabitWarning};
use crate::ledger::{MetricsLedger, MetricsSummary, Tally};
use crate::node::{earned_status, fresh_node, HabitNode, NodeStatus};
use crate::text::{fields, parse_u32, read_u32, read_u32_list, same_text, split_fields};

verus! {

/// What can be done to a day's record.
#[derive(Clone, Copy, Debug, PartialEq, Eq, Structural)]
pub enum EditCommand {
    Complete,
    Fail,
    Skip,
    Reset,
    SetValue,
    Increment,
}

/// The command that a word names, if any.
pub open spec fn command_named(s: Seq<char>) -> Option<EditCommand> {
    if s == "complete"@ {
        Some(EditCommand::Complete)
    } else if s == "fail"@ {
        Some(EditCommand::Fail)
    } else if s == "skip"@ {
        Some(EditCommand::Skip)
    } else if s == "reset"@ {
        Some(EditCommand::Reset)
    } else if s == "set"@ {
        Some(EditCommand::SetValue)
    } else if s == "increment"@ {
        Some(EditCommand::Increment)
    } else {
        None
    }
}

/// An increment must leave the value within `i32`; other commands always can.
pub open spec fn command_fits(n: HabitNode, cmd: EditCommand, v: i32) -> bool {
    cmd == EditCommand::Increment ==> i32::MIN <= n.value + v <= i32::MAX
}

/// A record with its value replaced and its status earned from it.
pub open spec fn revalued(n: HabitNode, value: i32) -> HabitNode {
    let m = HabitNode { value, ..n };
    HabitNode { status: earned_status(m), ..m }
}

/// The record after a command.
pub open spec fn applied(n: HabitNode, cmd: EditCommand, v: i32) -> HabitNode {
    match cmd {
        EditCommand::Complete => HabitNode { status: NodeStatus::COMPLETE, value: n.goal, ..n },
        EditCommand::Fail => HabitNode { status: NodeStatus::FAILED, ..n },
        EditCommand::Skip => HabitNode { status: NodeStatus::SKIPPED, ..n },
        EditCommand::Reset => HabitNode { status: NodeStatus::IDLE, ..n },
        EditCommand::SetValue => revalued(n, v),
        EditCommand::Increment => revalued(n, (n.value + v) as i32),
    }
}

/// A habit as a value: its settings, its records by day, its ledger.
pub ghost struct HabitView {
    pub start: HabitID,
    pub enabled_days: Option<Seq<u32>>,
    pub description: Seq<char>,
    pub goal: i32,
    pub nodes: Map<HabitID, HabitNode>,
    pub metrics: Tally,
    pub active: bool,
}

/// The record that an edit of `day` starts from: the one kept, or a fresh one.
pub open spec fn node_before(h: HabitView, day: HabitID) -> HabitNode {
    if h.nodes.contains_key(day) {
        h.nodes[day]
    } else {
        fresh_node(h.goal)
    }
}

/// A habit after `cmd` on `day`. A day not yet recorded is first recorded as
/// IDLE and counted; then the command moves the record, and the ledger moves
/// the day from the old status to the new one where the two differ.
pub open spec fn edited(h: HabitView, day: HabitID, cmd: EditCommand, v: i32) -> HabitView {
    let cur = node_before(h, day);
    let base = if h.nodes.contains_key(day) {
        h.metrics
    } else {
        h.metrics.shifted(None, NodeStatus::IDLE)
    };
    let next = applied(cur, cmd, v);
    HabitView {
        nodes: h.nodes.insert(day, next),
        metrics: if next.status == cur.status {
            base
        } else {
            base.shifted(Some(cur.status), next.status)
        },
        ..h
    }
}

/// What an edit returns, and the habit after it. An unknown command, or an
/// increment past the range of `i32`, changes nothing.
pub open spec fn edit_outcome(h: HabitView, day: HabitID, command: Seq<char>, v: i32) -> (
    Result<(), HabitError>,
    HabitView,
) {
    match command_named(command) {
        None => (Err(HabitError::InvalidArgument), h),
        Some(cmd) => if command_fits(node_before(h, day), cmd, v) {
            (Ok(()), edited(h, day, cmd, v))
        } else {
            (Err(HabitError::InvalidArgument), h)
        },
    }
}

/// The days of `m` whose record has status `s`.
pub open spec fn days_with(m: Map<HabitID, HabitNode>, s: NodeStatus) -> Set<HabitID> {
    m.dom().filter(|d: HabitID| m[d].status == s)
}

/// The ledger that a list of records calls for.
pub open spec fn tally_of(s: Seq<(HabitID, HabitNode)>) -> Tally
    decreases s.len(),
{
    if s.len() == 0 {
        Tally::zero()
    } else {
        tally_of(s.drop_last()).shifted(None, s.last().1.status)
    }
}

/// The summary of a habit's ledger; none for a habit with no recorded day.
pub open spec fn summary_of(h: HabitView) -> Option<MetricsSummary> {
    if h.nodes.len() == 0 {
        None
    } else {
        Some(MetricsSummary {
            days: h.nodes.len() as usize,
            complete: h.metrics.complete as usize,
            partial: h.metrics.partial as usize,
            skipped: h.metrics.skipped as usize,
            idle: h.metrics.idle as usize,
            failed: h.metrics.failed as usize,
        })
    }
}

/// The enabled days that a creation text gives, if it reads as a list.
pub open spec fn enabled_from(days: Option<Seq<char>>) -> Option<Seq<u32>> {
    match days {
        Some(d) => read_u32_list(d),
        None => None,
    }
}

pub open spec fn warning_from(days: Option<Seq<char>>) -> Option<HabitWarning> {
    match days {
        Some(d) => if read_u32_list(d) is Some {
            None
        } else {
            Some(HabitWarning::EnabledDaysDropped)
        },
        None => None,
    }
}

proof fn lemma_tally_total(s: Seq<(HabitID, HabitNode)>)
    ensures
        tally_of(s).total() == s.len(),
        forall|st: NodeStatus| 0 <= #[trigger] tally_of(s).get(st) <= s.len(),
        forall|i: int| 0 <= i < s.len() ==> tally_of(s).get(#[trigger] s[i].1.status) >= 1,
    decreases s.len(),
{
    if s.len() > 0 {
        let p = s.drop_last();
        lemma_tally_total(p);
        assert forall|st: NodeStatus| 0 <= #[trigger] tally_of(s).get(st) <= s.len() by {
            assert(tally_of(s).get(st) == tally_of(p).get(st) + if s.last().1.status == st { 1int } else { 0int });
        }
        assert forall|i: int| 0 <= i < s.len() implies tally_of(s).get(#[trigger] s[i].1.status) >= 1 by {
            if i < s.len() - 1 {
                assert(p[i] == s[i]);
            }
        }
    }
}

proof fn lemma_tally_update(s: Seq<(HabitID, HabitNode)>, i: int, n: HabitNode)
    requires
        0 <= i < s.len(),
    ensures
        tally_of(s.update(i, (s[i].0, n))) == tally_of(s).shifted(Some(s[i].1.status), n.status),
    decreases s.len(),
{
    let t = s.update(i, (s[i].0, n));
    let p = s.drop_last();
    if i == s.len() - 1 {
        assert(t.drop_last() == p);
    } else {
        assert(t.drop_last() == p.update(i, (p[i].0, n)));
        lemma_tally_update(p, i, n);
        lemma_tally_total(p);
        assert(p[i] == s[i]);
    }
}

/// The ledger counts exactly the recorded days in each status.
pub open spec fn ledger_balanced(h: HabitView) -> bool {
    &&& h.nodes.dom().finite()
    &&& forall|s: NodeStatus| #[trigger] h.metrics.get(s) == days_with(h.nodes, s).len()
}

/// Every edit keeps the ledger in step with the records: after any run of edits
/// from a balanced habit, each count is the number of days in that status.
pub proof fn lemma_edit_keeps_ledger_balanced(h: HabitView, day: HabitID, cmd: EditCommand, v: i32)
    requires
        ledger_balanced(h),
    ensures
        ledger_balanced(edited(h, day, cmd, v)),
{
    let cur = node_before(h, day);
    let next = applied(cur, cmd, v);
    let w = edited(h, day, cmd, v);
    assert(w.nodes.dom() == h.nodes.dom().insert(day));
    assert forall|s: NodeStatus| #[trigger] w.metrics.get(s) == days_with(w.nodes, s).len() by {
        let before = days_with(h.nodes, s);
        let after = days_with(w.nodes, s);
        h.nodes.dom().lemma_len_filter(|d: HabitID| h.nodes[d].status == s);
        let without = before.remove(day);
        assert(without.finite());
        if h.nodes.contains_key(day) && cur.status == s {
            assert(before.contains(day));
            assert(without.len() == before.len() - 1);
        } else {
            assert(without =~= before);
        }
        if h.nodes.contains_key(day) {
            let c = h.nodes[day].status;
            assert(days_with(h.nodes, c).contains(day));
            h.nodes.dom().lemma_len_filter(|d: HabitID| h.nodes[d].status == c);
            assert(h.metrics.get(c) >= 1) by {
                if days_with(h.nodes, c).len() == 0 {
                    days_with(h.nodes, c).lemma_len0_is_empty();
                }
            }
        }
        assert(w.metrics.get(s) == h.metrics.get(s)
            - (if h.nodes.contains_key(day) && cur.status == s { 1int } else { 0int })
            + (if next.status == s { 1int } else { 0int }));
        if next.status == s {
            assert(after =~= without.insert(day));
            assert(!without.contains(day));
        } else {
            assert(after =~= without);
        }
    }
}

/// Completing a day twice leaves it as completing it once: the goal filled, the
/// status COMPLETE, and the ledger still balanced.
pub proof fn lemma_complete_twice(h: HabitView, day: HabitID, v: i32, w: i32)
    requires
        ledger_balanced(h),
    ensures
        edit_outcome(h, day, "complete"@, v).0 is Ok,
        edit_outcome(edit_outcome(h, day, "complete"@, v).1, day, "complete"@, w)
            == edit_outcome(h, day, "complete"@, v),
        edit_outcome(h, day, "complete"@, v).1.nodes[day] == (HabitNode {
            value: node_before(h, day).goal,
            goal: node_before(h, day).goal,
            status: NodeStatus::COMPLETE,
        }),
        ledger_balanced(edit_outcome(h, day, "complete"@, v).1),
{
    let once = edited(h, day, EditCommand::Complete, v);
    lemma_edit_keeps_ledger_balanced(h, day, EditCommand::Complete, v);
    assert(edited(once, day, EditCommand::Complete, w).nodes =~= once.nodes);
}

/// Skipping a day not yet recorded records exactly that day, as SKIPPED; the
/// IDLE count comes back to where it was and the SKIPPED count grows by one.
pub proof fn lemma_first_skip(h: HabitView, day: HabitID, v: i32)
    requires
        !h.nodes.contains_key(day),
    ensures
        edit_outcome(h, day, "skip"@, v).0 is Ok,
        edit_outcome(h, day, "skip"@, v).1.nodes.dom() == h.nodes.dom().insert(day),
        edit_outcome(h, day, "skip"@, v).1.nodes[day].status == NodeStatus::SKIPPED,
        edit_outcome(h, day, "skip"@, v).1.metrics.get(NodeStatus::IDLE) == h.metrics.get(NodeStatus::IDLE),
        edit_outcome(h, day, "skip"@, v).1.metrics.get(NodeStatus::SKIPPED) == h.metrics.get(NodeStatus::SKIPPED) + 1,
{
    reveal_strlit("skip");
    reveal_strlit("complete");
    reveal_strlit("fail");
    assert("skip"@[0] != "complete"@[0]);
    assert("skip"@[0] != "fail"@[0]);
    assert(command_named("skip"@) == Some(EditCommand::Skip));
    assert(edited(h, day, EditCommand::Skip, v).nodes.dom() =~= h.nodes.dom().insert(day));
}

/// Setting a value earns COMPLETE exactly when it reaches the goal, PARTIAL below it.
pub proof fn lemma_set_boundary(n: HabitNode, v: i32)
    ensures
        applied(n, EditCommand::SetValue, v).value == v,
        applied(n, EditCommand::SetValue, v).status == if v >= n.goal {
            NodeStatus::COMPLETE
        } else {
            NodeStatus::PARTIAL
        },
{
}

/// The habit that a well-formed habit's parts rebuild.
pub open spec fn assembled(
    start: HabitID,
    enabled_days: Option<Seq<u32>>,
    description: Seq<char>,
    goal: i32,
    entries: Seq<(HabitID, HabitNode)>,
    active: bool,
) -> HabitView {
    HabitView {
        start,
        enabled_days,
        description,
        goal,
        nodes: entries_map(entries),
        metrics: tally_of(entries),
        active,
    }
}

/// A habit rebuilt from the parts it hands out is the habit it was, its ledger
/// included.
pub proof fn lemma_parts_rebuild(h: HabitView, entries: Seq<(HabitID, HabitNode)>)
    requires
        entries_map(entries) == h.nodes,
        tally_of(entries) == h.metrics,
    ensures
        assembled(h.start, h.enabled_days, h.description, h.goal, entries, h.active) == h,
{
}

/// The ledger of a habit counts exactly the days recorded in each status, and
/// all of them together are the number of recorded days.
pub proof fn lemma_ledger_counts_days(h: &HabitData)
    requires
        h.wf(),
    ensures
        ledger_balanced(h@),
        h@.metrics.total() == h@.nodes.len(),
{
    lemma_tally_matches_map(h.nodes@);
    lemma_tally_total(h.nodes@);
    lemma_entries_map(h.nodes@);
}

proof fn lemma_tally_matches_map(s: Seq<(HabitID, HabitNode)>)
    requires
        keys_unique(s),
    ensures
        forall|st: NodeStatus| #[trigger] tally_of(s).get(st) == days_with(entries_map(s), st).len(),
    decreases s.len(),
{
    lemma_entries_map(s);
    if s.len() > 0 {
        let p = s.drop_last();
        assert(keys_unique(p));
        lemma_tally_matches_map(p);
        lemma_entries_map(p);
        let k = s.last().0;
        let n = s.last().1;
        lemma_key_position(p, k);
        assert(!entries_map(p).contains_key(k));
        assert(entries_map(s) == entries_map(p).insert(k, n));
        assert forall|st: NodeStatus| #[trigger] tally_of(s).get(st) == days_with(entries_map(s), st).len() by {
            let old_days = days_with(entries_map(p), st);
            entries_map(p).dom().lemma_len_filter(|d: HabitID| entries_map(p)[d].status == st);
            assert(old_days.finite());
            assert(!old_days.contains(k));
            assert(tally_of(s) == tally_of(p).shifted(None, n.status));
            if n.status == st {
                assert(days_with(entries_map(s), st) =~= old_days.insert(k));
                assert(tally_of(s).get(st) == tally_of(p).get(st) + 1);
            } else {
                assert(days_with(entries_map(s), st) =~= old_days);
                assert(tally_of(s).get(st) == tally_of(p).get(st));
            }
        }
    } else {
        assert forall|st: NodeStatus| #[trigger] tally_of(s).get(st) == days_with(entries_map(s), st).len() by {
            assert(days_with(entries_map(s), st) =~= Set::<HabitID>::empty());
        }
    }
}

impl EditCommand {
    /// The command named by `s`: `complete`, `fail`, `skip`, `reset`, `set` or `increment`.
    pub fn from_name(s: &str) -> (r: Option<EditCommand>)
        ensures
            r == command_named(s@),
    {
        if same_text(s, "complete") {
            Some(EditCommand::Complete)
        } else if same_text(s, "fail") {
            Some(EditCommand::Fail)
        } else if same_text(s, "skip") {
            Some(EditCommand::Skip)
        } else if same_text(s, "reset") {
            Some(EditCommand::Reset)
        } else if same_text(s, "set") {
            Some(EditCommand::SetValue)
        } else if same_text(s, "increment") {
            Some(EditCommand::Increment)
        } else {
            None
        }
    }
}

/// One habit: when it started, on which days it applies, its description and
/// daily goal, a record for each day it was touched, the ledger of those
/// records, and whether it shows in day listings.
#[derive(Clone, Debug)]
pub struct HabitData {
    start: HabitID,
    enabled_days: Option<Vec<u32>>,
    description: String,
    goal: i32,
    nodes: Vec<(HabitID, HabitNode)>,
    metrics: MetricsLedger,
    active: bool,
}

impl View for HabitData {
    type V = HabitView;

    closed spec fn view(&self) -> HabitView {
        HabitView {
            start: self.start,
            enabled_days: match self.enabled_days {
                Some(v) => Some(v@),
                None => None,
            },
            description: self.description@,
            goal: self.goal,
            nodes: entries_map(self.nodes@),
            metrics: self.metrics@,
            active: self.active,
        }
    }
}

impl HabitData {
    /// The records, in the order they were made.
    pub closed spec fn entries(&self) -> Seq<(HabitID, HabitNode)> {
        self.nodes@
    }

    /// One record per day, and a ledger that counts the records by status.
    pub closed spec fn wf(&self) -> bool {
        keys_unique(self.nodes@) && self.metrics@ == tally_of(self.nodes@)
    }

    /// Makes a habit that starts today. See [`HabitData::with_start`].
    pub fn new(desc: String, goal: i32, days: Option<String>) -> (r: (HabitData, Option<HabitWarning>))
        ensures
            r.0.wf(),
            calendar_date(r.0@.start),
            r.0@.enabled_days == enabled_from(match days { Some(d) => Some(d@), None => None }),
            r.0@.description == desc@,
            r.0@.goal == goal,
            r.0@.nodes == Map::<HabitID, HabitNode>::empty(),
            r.0@.metrics == Tally::zero(),
            r.0@.active,
            r.1 == warning_from(match days { Some(d) => Some(d@), None => None }),
    {
        HabitData::with_start(desc, goal, days, HabitID::today())
    }

    /// Makes a habit that starts on `start`, active, with no recorded day and
    /// every count at zero. `days` restricts the habit to the listed days; where
    /// it is not a hyphen-separated list of numbers the habit is made for every
    /// day and a warning says so.
    pub fn with_start(desc: String, goal: i32, days: Option<String>, start: HabitID) -> (r: (HabitData, Option<HabitWarning>))
        ensures
            r.0.wf(),
            r.0@ == (HabitView {
                start,
                enabled_days: enabled_from(match days { Some(d) => Some(d@), None => None }),
                description: desc@,
                goal,
                nodes: Map::empty(),
                metrics: Tally::zero(),
                active: true,
            }),
            r.1 == warning_from(match days { Some(d) => Some(d@), None => None }),
    {
        let (enabled_days, warning) = match days {
            Some(d) => match HabitData::validate_allowed_days(d) {
                Ok(p) => (Some(p), None),
                Err(_) => (None, Some(HabitWarning::EnabledDaysDropped)),
            },
            None => (None, None),
        };
        let h = HabitData {
            start,
            enabled_days,
            description: desc,
            goal,
            nodes: Vec::new(),
            metrics: MetricsLedger::new(),
            active: true,
        };
        assert(entries_map(h.nodes@) == Map::<HabitID, HabitNode>::empty());
        (h, warning)
    }

    /// Today's date as text, `month-day-year`.
    pub fn get_current_date_id() -> (r: String)
        ensures
            exists|d: HabitID| calendar_date(d) && r@ == date_text(d),
    {
        HabitID::today().to_string()
    }

    /// Reads a hyphen-separated list of day numbers, e.g. `1-3-5-7`.
    pub fn validate_allowed_days(s: String) -> (r: Result<Vec<u32>, HabitError>)
        ensures
            match read_u32_list(s@) {
                Some(v) => r is Ok && r->Ok_0@ == v,
                None => r == Err::<Vec<u32>, HabitError>(HabitError::InvalidArgument),
            },
    {
        let parts = split_fields(s.as_str());
        let ghost f = parts@.map_values(|p: &str| p@);
        assert(f == fields(s@));
        let mut out: Vec<u32> = Vec::new();
        let mut i: usize = 0;
        while i < parts.len()
            invariant
                i <= parts.len(),
                f == parts@.map_values(|p: &str| p@),
                f == fields(s@),
                out.len() == i,
                forall|k: int| 0 <= k < i ==> read_u32(#[trigger] f[k]) == Some(out@[k]),
            decreases parts.len() - i,
        {
            match parse_u32(parts[i]) {
                Some(x) => out.push(x),
                None => {
                    assert(read_u32(f[i as int]) is None);
                    return Err(HabitError::InvalidArgument);
                },
            }
            i = i + 1;
        }
        assert(out@ == f.map_values(|p: Seq<char>| read_u32(p)->0));
        Ok(out)
    }

    /// The record that a new day of this habit starts with: no progress, this
    /// habit's goal, IDLE.
    pub fn create_node_from_habit(&self) -> (r: HabitNode)
        ensures
            r == fresh_node(self@.goal),
    {
        HabitNode { value: 0, goal: self.goal, status: NodeStatus::IDLE }
    }

    fn find_node(&self, day: HabitID) -> (r: Option<usize>)
        ensures
            match r {
                Some(i) => i < self.nodes.len() && self.nodes@[i as int].0 == day,
                None => key_position(self.nodes@, day) is None,
            },
    {
        let mut i: usize = 0;
        while i < self.nodes.len()
            invariant
                i <= self.nodes.len(),
                forall|k: int| 0 <= k < i ==> self.nodes@[k].0 != day,
            decreases self.nodes.len() - i,
        {
            if self.nodes[i].0 == day {
                return Some(i);
            }
            i = i + 1;
        }
        proof {
            lemma_key_position(self.nodes@, day);
        }
        None
    }

    /// Records `date` as a fresh IDLE day at the end of the list and counts it.
    fn push_fresh(&mut self, date: HabitID)
        requires
            old(self).wf(),
            key_position(old(self).nodes@, date) is None,
        ensures
            final(self).wf(),
            final(self).nodes@ == old(self).nodes@.push((date, fresh_node(old(self).goal))),
            final(self)@ == (HabitView {
                nodes: old(self)@.nodes.insert(date, fresh_node(old(self)@.goal)),
                metrics: old(self)@.metrics.shifted(None, NodeStatus::IDLE),
                ..old(self)@
            }),
    {
        proof {
            lemma_tally_total(self.nodes@);
            lemma_entries_map_push(self.nodes@, date, fresh_node(self.goal));
        }
        let node = self.create_node_from_habit();
        self.nodes.push((date, node));
        let ghost pushed = self.nodes@;
        assert(pushed.drop_last() == old(self).nodes@);
        assert(pushed.len() <= usize::MAX) by {
            assert(self.nodes.len() == pushed.len());
        }
        assert(self.metrics@.get(NodeStatus::IDLE) < i128::MAX);
        let r = self.shift_metric(None, Some(NodeStatus::IDLE));
        assert(r is Ok);
        assert(self.metrics@ == tally_of(pushed));
    }

    /// Records `date` as a fresh IDLE day and counts it; an error if the day is
    /// already recorded.
    pub fn insert_fresh_node(&mut self, date: HabitID) -> (r: Result<HabitID, HabitError>)
        requires
            old(self).wf(),
        ensures
            final(self).wf(),
            old(self)@.nodes.contains_key(date) ==> r == Err::<HabitID, HabitError>(HabitError::AlreadyExists)
                && final(self)@ == old(self)@,
            !old(self)@.nodes.contains_key(date) ==> r == Ok::<HabitID, HabitError>(date)
                && final(self)@ == (HabitView {
                    nodes: old(self)@.nodes.insert(date, fresh_node(old(self)@.goal)),
                    metrics: old(self)@.metrics.shifted(None, NodeStatus::IDLE),
                    ..old(self)@
                }),
    {
        proof {
            lemma_entries_map(self.nodes@);
        }
        match self.find_node(date) {
            Some(_) => Err(HabitError::AlreadyExists),
            None => {
                self.push_fresh(date);
                Ok(date)
            },
        }
    }

    /// Applies `cmd` to the record at position `i` and moves the ledger with it:
    /// always for the commands that set a status, only on a change for those
    /// that set a value.
    fn apply_at(&mut self, i: usize, cmd: EditCommand, value: i32)
        requires
            old(self).wf(),
            i < old(self).nodes.len(),
            command_fits(old(self).nodes@[i as int].1, cmd, value),
        ensures
            final(self).wf(),
            final(self).nodes@ == old(self).nodes@.update(
                i as int,
                (old(self).nodes@[i as int].0, applied(old(self).nodes@[i as int].1, cmd, value)),
            ),
            final(self)@ == (HabitView {
                nodes: old(self)@.nodes.insert(
                    old(self).nodes@[i as int].0,
                    applied(old(self).nodes@[i as int].1, cmd, value),
                ),
                metrics: if applied(old(self).nodes@[i as int].1, cmd, value).status
                    == old(self).nodes@[i as int].1.status {
                    old(self)@.metrics
                } else {
                    old(self)@.metrics.shifted(
                        Some(old(self).nodes@[i as int].1.status),
                        applied(old(self).nodes@[i as int].1, cmd, value).status,
                    )
                },
                ..old(self)@
            }),
    {
        let (key, mut node) = self.nodes[i];
        let current = node.status;
        let ghost before = self.nodes@;
        let ghost next = applied(node, cmd, value);
        proof {
            lemma_tally_total(before);
            lemma_tally_update(before, i as int, next);
            lemma_entries_map_update(before, i as int, next);
        }
        let shift_always = match cmd {
            EditCommand::Complete => {
                node.complete_node();
                true
            },
            EditCommand::Fail => {
                node.fail_node();
                true
            },
            EditCommand::Skip => {
                node.skip_node();
                true
            },
            EditCommand::Reset => {
                node.idle_node();
                true
            },
            EditCommand::SetValue => {
                node.value = value;
                node.calculate_status();
                false
            },
            EditCommand::Increment => {
                node.value = node.value + value;
                node.calculate_status();
                false
            },
        };
        assert(node == next);
        self.nodes.set(i, (key, node));
        assert(self.nodes@ == before.update(i as int, (before[i as int].0, next)));
        assert(before.len() <= usize::MAX) by {
            assert(self.nodes.len() == before.len());
        }
        assert(self.metrics@ == tally_of(before));
        assert(self.metrics@.get(node.status) <= usize::MAX);
        assert(usize::MAX < i128::MAX);
        if shift_always || node.status != current {
            let r = self.shift_metric(Some(current), Some(node.status));
            assert(r is Ok);
        }
    }

    /// Edits the record of `day` by the command named `command`. A day not yet
    /// recorded is first recorded as a fresh IDLE day and counted, then the
    /// command is applied to it. `complete` fills the
    /// goal; `fail`, `skip` and `reset` set the status; `set` replaces the value
    /// and `increment` adds to it, after which the status is earned from the
    /// value. The ledger follows every change. An unknown command, or an
    /// increment that would leave the range of `i32`, is an error and changes
    /// nothing.
    pub fn edit_node(&mut self, day: HabitID, command: &str, value: i32) -> (r: Result<(), HabitError>)
        requires
            old(self).wf(),
        ensures
            final(self).wf(),
            (r, final(self)@) == edit_outcome(old(self)@, day, command@, value),
    {
        proof {
            lemma_entries_map(self.nodes@);
        }
        let cmd = match EditCommand::from_name(command) {
            Some(c) => c,
            None => return Err(HabitError::InvalidArgument),
        };
        match self.find_node(day) {
            Some(i) => {
                proof {
                    lemma_key_position_at(self.nodes@, i as int);
                }
                let current = self.nodes[i].1;
                if let EditCommand::Increment = cmd {
                    let sum = current.value as i64 + value as i64;
                    if sum < i32::MIN as i64 || sum > i32::MAX as i64 {
                        return Err(HabitError::InvalidArgument);
                    }
                }
                self.apply_at(i, cmd, value);
            },
            None => {
                self.push_fresh(day);
                let i = self.nodes.len() - 1;
                self.apply_at(i, cmd, value);
                proof {
                    assert(old(self)@.nodes.insert(day, fresh_node(old(self)@.goal)).insert(day, applied(fresh_node(old(self)@.goal), cmd, value))
                        =~= old(self)@.nodes.insert(day, applied(fresh_node(old(self)@.goal), cmd, value)));
                }
            },
        }
        Ok(())
    }

    /// The habit's record to date; none while no day is recorded.
    pub fn summary(&self) -> (r: Option<MetricsSummary>)
        requires
            self.wf(),
        ensures
            r == summary_of(self@),
    {
        proof {
            lemma_entries_map(self.nodes@);
            lemma_tally_total(self.nodes@);
        }
        let days = self.nodes.len();
        if days == 0 {
            return None;
        }
        Some(MetricsSummary {
            days,
            complete: self.metrics.count(NodeStatus::COMPLETE) as usize,
            partial: self.metrics.count(NodeStatus::PARTIAL) as usize,
            skipped: self.metrics.count(NodeStatus::SKIPPED) as usize,
            idle: self.metrics.count(NodeStatus::IDLE) as usize,
            failed: self.metrics.count(NodeStatus::FAILED) as usize,
        })
    }

    /// The record of `day`, if the day was touched.
    pub fn node(&self, day: HabitID) -> (r: Option<HabitNode>)
        requires
            self.wf(),
        ensures
            r == (if self@.nodes.contains_key(day) { Some(self@.nodes[day]) } else { None::<HabitNode> }),
    {
        proof {
            lemma_entries_map(self.nodes@);
        }
        match self.find_node(day) {
            Some(i) => Some(self.nodes[i].1),
            None => None,
        }
    }

    /// How many days are recorded.
    pub fn node_count(&self) -> (r: usize)
        requires
            self.wf(),
        ensures
            r == self@.nodes.len(),
    {
        proof {
            lemma_entries_map(self.nodes@);
        }
        self.nodes.len()
    }

    /// How many recorded days stand in status `s`.
    pub fn metric(&self, s: NodeStatus) -> (r: i128)
        ensures
            r == self@.metrics.get(s),
    {
        self.metrics.count(s)
    }

    pub fn description(&self) -> (r: &String)
        ensures
            r@ == self@.description,
    {
        &self.description
    }

    pub fn goal(&self) -> (r: i32)
        ensures
            r == self@.goal,
    {
        self.goal
    }

    pub fn start_date(&self) -> (r: HabitID)
        ensures
            r == self@.start,
    {
        self.start
    }

    pub fn enabled_days(&self) -> (r: Option<&Vec<u32>>)
        ensures
            match r {
                Some(v) => self@.enabled_days == Some(v@),
                None => self@.enabled_days is None,
            },
    {
        match &self.enabled_days {
            Some(v) => Some(v),
            None => None,
        }
    }

    /// Whether the habit shows in day listings.
    pub fn is_active(&self) -> (r: bool)
        ensures
            r == self@.active,
    {
        self.active
    }

    /// Shows or hides the habit in day listings; its records stay as they are.
    pub fn toggle_active(&mut self)
        requires
            old(self).wf(),
        ensures
            final(self).wf(),
            final(self)@ == (HabitView { active: !old(self)@.active, ..old(self)@ }),
    {
        self.active = !self.active;
    }

    /// The records, one per recorded day, in the order they were made.
    pub fn node_entries(&self) -> (r: Vec<(HabitID, HabitNode)>)
        requires
            self.wf(),
        ensures
            keys_unique(r@),
            entries_map(r@) == self@.nodes,
            tally_of(r@) == self@.metrics,
    {
        let mut out: Vec<(HabitID, HabitNode)> = Vec::new();
        let mut i: usize = 0;
        while i < self.nodes.len()
            invariant
                i <= self.nodes.len(),
                out@ == self.nodes@.subrange(0, i as int),
            decreases self.nodes.len() - i,
        {
            out.push(self.nodes[i]);
            i = i + 1;
        }
        assert(out@ == self.nodes@);
        out
    }

    /// Builds a habit from its parts, as they were stored: the ledger is counted
    /// anew from the records. An error if two records share a day.
    pub fn from_parts(
        start: HabitID,
        enabled_days: Option<Vec<u32>>,
        description: String,
        goal: i32,
        nodes: Vec<(HabitID, HabitNode)>,
        active: bool,
    ) -> (r: Result<HabitData, HabitError>)
        ensures
            keys_unique(nodes@) <==> r is Ok,
            r is Ok ==> r->Ok_0.wf() && r->Ok_0@ == (HabitView {
                start,
                enabled_days: match enabled_days { Some(v) => Some(v@), None => None },
                description: description@,
                goal,
                nodes: entries_map(nodes@),
                metrics: tally_of(nodes@),
                active,
            }),
            !keys_unique(nodes@) ==> r == Err::<HabitData, HabitError>(HabitError::InvalidArgument),
    {
        let mut metrics = MetricsLedger::new();
        let mut i: usize = 0;
        while i < nodes.len()
            invariant
                i <= nodes.len(),
                keys_unique(nodes@.subrange(0, i as int)),
                metrics@ == tally_of(nodes@.subrange(0, i as int)),
            decreases nodes.len() - i,
        {
            let ghost seen = nodes@.subrange(0, i as int);
            let mut j: usize = 0;
            while j < i
                invariant
                    j <= i < nodes.len(),
                    forall|k: int| 0 <= k < j ==> nodes@[k].0 != nodes@[i as int].0,
                decreases i - j,
            {
                if nodes[j].0 == nodes[i].0 {
                    assert(!keys_unique(nodes@));
                    return Err(HabitError::InvalidArgument);
                }
                j = j + 1;
            }
            proof {
                lemma_tally_total(seen);
                assert(nodes@.subrange(0, i + 1).drop_last() == seen);
            }
            let r = metrics.shift(None, Some(nodes[i].1.status));
            assert(r is Ok);
            i = i + 1;
        }
        assert(nodes@.subrange(0, nodes.len() as int) == nodes@);
        Ok(HabitData { start, enabled_days, description, goal, nodes, metrics, active })
    }

    /// Moves one day in the ledger from `decrement` (if given) to `increment`;
    /// the records are not touched. See [`MetricsLedger::shift`].
    pub fn shift_metric(&mut self, decrement: Option<NodeStatus>, increment: Option<NodeStatus>) -> (r: Result<(), HabitError>)
        ensures
            final(self)@ == (HabitView { metrics: final(self)@.metrics, ..old(self)@ }),
            final(self).entries() == old(self).entries(),
            match increment {
                None => r == Err::<(), HabitError>(HabitError::InvalidArgument) && final(self)@ == old(self)@,
                Some(t) => {
                    let lowered = match decrement {
                        Some(f) => old(self)@.metrics.with(f, old(self)@.metrics.get(f) - 1),
                        None => old(self)@.metrics,
                    };
                    if (decrement is Some && old(self)@.metrics.get(decrement->0) == i128::MIN) || lowered.get(t) == i128::MAX {
                        r == Err::<(), HabitError>(HabitError::InvariantViolation) && final(self)@ == old(self)@
                    } else {
                        r == Ok::<(), HabitError>(()) && final(self)@.metrics == old(self)@.metrics.shifted(decrement, t)
                    }
                },
            },
    {
        self.metrics.shift(decrement, increment)
    }
}

} // verus!
