//! A user's habits, kept by name, and what can be done to them.
use vstd::prelude::*;

use crate::date::HabitID;
use crate::entries::{
    key_position, keys_unique, lemma_entries_map_update, lemma_entries_remove, lemma_key_position, lemma_key_position_at,
};
use crate::error::HabitError;
use crate::habit::{edit_outcome, summary_of, HabitData, HabitView};
use vstd::set::Set;
use crate::ledger::MetricsSummary;
use crate::node::{HabitNode, NodeStatus};

verus! {

/// A user as a value: who they are, and their habits by name in the order
/// they were added.
pub ghost struct UserView {
    pub id: u32,
    pub name: Seq<char>,
    pub habits: Seq<(Seq<char>, HabitView)>,
}

/// One line of a day listing: a habit and where it stands that day.
#[derive(Clone, Debug, PartialEq, Eq)]
pub struct DayEntry {
    pub name: String,
    pub status: NodeStatus,
    pub value: i32,
    pub goal: i32,
}

pub open spec fn entry_view(e: DayEntry) -> (Seq<char>, HabitNode) {
    (e.name@, HabitNode { value: e.value, goal: e.goal, status: e.status })
}

/// The habits after `name` is shown or hidden; unchanged if there is no such habit.
pub open spec fn hidden(hs: Seq<(Seq<char>, HabitView)>, name: Seq<char>) -> Seq<(Seq<char>, HabitView)> {
    match key_position(hs, name) {
        Some(i) => hs.update(i, (name, HabitView { active: !hs[i].1.active, ..hs[i].1 })),
        None => hs,
    }
}

/// The habits after `name` is removed with all its records.
pub open spec fn removed(hs: Seq<(Seq<char>, HabitView)>, name: Seq<char>) -> Seq<(Seq<char>, HabitView)> {
    match key_position(hs, name) {
        Some(i) => hs.remove(i),
        None => hs,
    }
}

/// The habits after `h` is added as `name`, unless that name is taken.
pub open spec fn added(hs: Seq<(Seq<char>, HabitView)>, name: Seq<char>, h: HabitView) -> Seq<(Seq<char>, HabitView)> {
    match key_position(hs, name) {
        Some(_) => hs,
        None => hs.push((name, h)),
    }
}

/// The record to date of the habit `name`.
pub open spec fn history(hs: Seq<(Seq<char>, HabitView)>, name: Seq<char>) -> Result<Option<MetricsSummary>, HabitError> {
    match key_position(hs, name) {
        Some(i) => Ok(summary_of(hs[i].1)),
        None => Err(HabitError::NotFound),
    }
}

/// For each active habit with a record on `day`, in order: its name and that record.
pub open spec fn listing(hs: Seq<(Seq<char>, HabitView)>, day: HabitID) -> Seq<(Seq<char>, HabitNode)>
    decreases hs.len(),
{
    if hs.len() == 0 {
        Seq::empty()
    } else {
        let rest = listing(hs.drop_last(), day);
        let h = hs.last().1;
        if h.active && h.nodes.contains_key(day) {
            rest.push((hs.last().0, h.nodes[day]))
        } else {
            rest
        }
    }
}

/// What editing a habit's day by a command line returns, and the user after it:
/// `args[1]` names the command and `args[2]` the habit. Too few arguments, or no
/// such habit, is an error that changes nothing.
pub open spec fn edit_by_args(u: UserView, args: Seq<Seq<char>>, day: HabitID, value: i32) -> (
    Result<(), HabitError>,
    UserView,
) {
    if args.len() < 3 {
        (Err(HabitError::InvalidArgument), u)
    } else {
        match key_position(u.habits, args[2]) {
            None => (Err(HabitError::NotFound), u),
            Some(i) => {
                let (r, h) = edit_outcome(u.habits[i].1, day, args[1], value);
                (r, UserView { habits: u.habits.update(i, (args[2], h)), ..u })
            },
        }
    }
}

/// A day listing: an error where the user keeps no habit at all.
pub open spec fn day_list(hs: Seq<(Seq<char>, HabitView)>, day: HabitID) -> Result<Seq<(Seq<char>, HabitNode)>, HabitError> {
    if hs.len() == 0 {
        Err(HabitError::NotFound)
    } else {
        Ok(listing(hs, day))
    }
}

/// After a habit is removed its history is not found, and a habit added again
/// under the same name carries only its own records: one added with none shows
/// no history.
pub proof fn lemma_removal_final(hs: Seq<(Seq<char>, HabitView)>, name: Seq<char>, h: HabitView)
    requires
        keys_unique(hs),
    ensures
        history(removed(hs, name), name) == Err::<Option<MetricsSummary>, HabitError>(HabitError::NotFound),
        history(added(removed(hs, name), name, h), name) == Ok::<Option<MetricsSummary>, HabitError>(summary_of(h)),
        h.nodes == Map::<HabitID, HabitNode>::empty() ==> history(added(removed(hs, name), name, h), name)
            == Ok::<Option<MetricsSummary>, HabitError>(None),
{
    let r = removed(hs, name);
    lemma_key_position(hs, name);
    match key_position(hs, name) {
        Some(i) => {
            lemma_entries_remove(hs, i);
        },
        None => {},
    }
    assert(key_position(r, name) is None);
    let a = r.push((name, h));
    assert(a.last().0 == name);
    assert(key_position(a, name) == Some(a.len() - 1));
    if h.nodes == Map::<HabitID, HabitNode>::empty() {
        assert(h.nodes.dom() =~= Set::<HabitID>::empty());
    }
}

proof fn lemma_listing_skips_hidden(hs: Seq<(Seq<char>, HabitView)>, name: Seq<char>, day: HabitID)
    requires
        forall|j: int| 0 <= j < hs.len() && (#[trigger] hs[j]).0 == name ==> !hs[j].1.active,
    ensures
        forall|k: int| 0 <= k < listing(hs, day).len() ==> (#[trigger] listing(hs, day)[k]).0 != name,
    decreases hs.len(),
{
    if hs.len() > 0 {
        let p = hs.drop_last();
        assert forall|j: int| 0 <= j < p.len() && (#[trigger] p[j]).0 == name implies !p[j].1.active by {
            assert(p[j] == hs[j]);
        }
        lemma_listing_skips_hidden(p, name, day);
        let rest = listing(p, day);
        let l = listing(hs, day);
        assert(hs.last() == hs[hs.len() - 1]);
        assert forall|k: int| 0 <= k < l.len() implies (#[trigger] l[k]).0 != name by {
            if k < rest.len() {
                assert(l[k] == rest[k]);
            }
        }
    }
}

/// Hiding a habit takes it out of every day listing; hiding it again brings
/// back the habits exactly as they were. No habit's records change either way.
pub proof fn lemma_hide_toggles(hs: Seq<(Seq<char>, HabitView)>, name: Seq<char>, day: HabitID)
    requires
        keys_unique(hs),
        key_position(hs, name) is Some,
        hs[key_position(hs, name)->0].1.active,
    ensures
        forall|k: int| 0 <= k < listing(hidden(hs, name), day).len()
            ==> (#[trigger] listing(hidden(hs, name), day)[k]).0 != name,
        hidden(hidden(hs, name), name) == hs,
        listing(hidden(hidden(hs, name), name), day) == listing(hs, day),
        hidden(hs, name).len() == hs.len(),
        forall|j: int| 0 <= j < hs.len() ==> (#[trigger] hidden(hs, name)[j]).1.nodes == hs[j].1.nodes,
{
    let i = key_position(hs, name)->0;
    lemma_key_position(hs, name);
    let g = hidden(hs, name);
    assert forall|j: int| 0 <= j < g.len() && (#[trigger] g[j]).0 == name implies !g[j].1.active by {
        if j != i {
            assert(g[j] == hs[j]);
        }
    }
    lemma_listing_skips_hidden(g, name, day);
    lemma_entries_map_update(hs, i, HabitView { active: !hs[i].1.active, ..hs[i].1 });
    lemma_key_position_at(g, i);
    assert(hidden(g, name) =~= hs);
}

/// A user's data: an id and a display name that are carried along, and the
/// habits by name.
#[derive(Clone, Debug)]
pub struct UserData {
    id: u32,
    name: String,
    data: Vec<(String, HabitData)>,
}

impl View for UserData {
    type V = UserView;

    closed spec fn view(&self) -> UserView {
        UserView {
            id: self.id,
            name: self.name@,
            habits: self.data@.map_values(|e: (String, HabitData)| (e.0@, e.1@)),
        }
    }
}

impl UserData {
    /// Habit names are distinct, and every habit is well formed.
    pub closed spec fn wf(&self) -> bool {
        keys_unique(self@.habits) && forall|i: int| 0 <= i < self.data@.len() ==> (#[trigger] self.data@[i]).1.wf()
    }

    /// A well-formed user's habits have distinct names, as the laws on habit
    /// lists ask.
    pub proof fn lemma_names_unique(&self)
        requires
            self.wf(),
        ensures
            keys_unique(self@.habits),
    {
    }

    proof fn lemma_view_at(&self, i: int)
        requires
            0 <= i < self.data@.len(),
        ensures
            self@.habits.len() == self.data@.len(),
            self@.habits[i] == (self.data@[i].0@, self.data@[i].1@),
    {
    }

    /// No user: id 0, an empty name, no habits.
    pub fn new() -> (r: UserData)
        ensures
            r.wf(),
            r@ == (UserView { id: 0, name: Seq::empty(), habits: Seq::empty() }),
    {
        UserData::with_identity(0, String::new())
    }

    /// A user with the given id and name and no habits.
    pub fn with_identity(id: u32, name: String) -> (r: UserData)
        ensures
            r.wf(),
            r@ == (UserView { id, name: name@, habits: Seq::empty() }),
    {
        let r = UserData { id, name, data: Vec::new() };
        assert(r@.habits == Seq::<(Seq<char>, HabitView)>::empty());
        r
    }

    pub fn id(&self) -> (r: u32)
        ensures
            r == self@.id,
    {
        self.id
    }

    pub fn name(&self) -> (r: &String)
        ensures
            r@ == self@.name,
    {
        &self.name
    }

    /// How many habits the user keeps.
    pub fn habit_count(&self) -> (r: usize)
        ensures
            r == self@.habits.len(),
    {
        self.data.len()
    }

    /// The habit at position `i`, with its name.
    pub fn habit_at(&self, i: usize) -> (r: (&String, &HabitData))
        requires
            self.wf(),
            i < self@.habits.len(),
        ensures
            (r.0@, r.1@) == self@.habits[i as int],
            r.1.wf(),
    {
        (&self.data[i].0, &self.data[i].1)
    }

    fn find(&self, name: &String) -> (r: Option<usize>)
        requires
            self.wf(),
        ensures
            match r {
                Some(i) => key_position(self@.habits, name@) == Some(i as int) && i < self.data@.len()
                    && self@.habits[i as int].0 == name@,
                None => key_position(self@.habits, name@) is None,
            },
    {
        let ghost hs = self@.habits;
        let mut i: usize = 0;
        while i < self.data.len()
            invariant
                hs == self@.habits,
                keys_unique(hs),
                hs.len() == self.data@.len(),
                i <= self.data.len(),
                forall|k: int| 0 <= k < i ==> hs[k].0 != name@,
            decreases self.data.len() - i,
        {
            proof {
                self.lemma_view_at(i as int);
            }
            if self.data[i].0 == *name {
                proof {
                    lemma_key_position_at(hs, i as int);
                }
                return Some(i);
            }
            i = i + 1;
        }
        proof {
            lemma_key_position(hs, name@);
            if key_position(hs, name@) is Some {
                let k = key_position(hs, name@)->0;
                assert(hs[k].0 == name@);
            }
        }
        None
    }

    /// The habit called `name`, if the user keeps one.
    pub fn habit(&self, name: &String) -> (r: Option<&HabitData>)
        requires
            self.wf(),
        ensures
            match key_position(self@.habits, name@) {
                Some(i) => r is Some && r->0@ == self@.habits[i].1 && r->0.wf(),
                None => r is None,
            },
    {
        match self.find(name) {
            Some(i) => {
                proof {
                    self.lemma_view_at(i as int);
                }
                Some(&self.data[i].1)
            },
            None => None,
        }
    }

    /// Drops every habit; id and name stay.
    pub fn clear_data(&mut self)
        ensures
            final(self).wf(),
            final(self)@ == (UserView { habits: Seq::empty(), ..old(self)@ }),
    {
        self.data = Vec::new();
        assert(self@.habits == Seq::<(Seq<char>, HabitView)>::empty());
    }

    /// The record to date of the habit called `habit`: its summary, or none while
    /// it has no recorded day. An error if there is no such habit.
    pub fn show_history(&self, habit: String) -> (r: Result<Option<MetricsSummary>, HabitError>)
        requires
            self.wf(),
        ensures
            r == history(self@.habits, habit@),
    {
        match self.find(&habit) {
            Some(i) => {
                proof {
                    self.lemma_view_at(i as int);
                }
                Ok(self.data[i].1.summary())
            },
            None => Err(HabitError::NotFound),
        }
    }

    /// Adds `data` under `name`; an error if the name is taken.
    pub fn add_habit(&mut self, name: String, data: HabitData) -> (r: Result<(), HabitError>)
        requires
            old(self).wf(),
            data.wf(),
        ensures
            final(self).wf(),
            final(self)@ == (UserView { habits: added(old(self)@.habits, name@, data@), ..old(self)@ }),
            r == match key_position(old(self)@.habits, name@) {
                Some(_) => Err::<(), HabitError>(HabitError::AlreadyExists),
                None => Ok(()),
            },
    {
        match self.find(&name) {
            Some(_) => Err(HabitError::AlreadyExists),
            None => {
                let ghost before = self.data@;
                let ghost hs = self@.habits;
                proof {
                    lemma_key_position(hs, name@);
                }
                self.data.push((name, data));
                assert(self@.habits == hs.push((name@, data@)));
                assert forall|i: int| 0 <= i < self.data@.len() implies (#[trigger] self.data@[i]).1.wf() by {
                    if i < before.len() {
                        assert(self.data@[i] == before[i]);
                    }
                }
                Ok(())
            },
        }
    }

    /// Removes the habit called `name` with all its records; an error if there
    /// is no such habit.
    pub fn remove_habit(&mut self, name: String) -> (r: Result<(), HabitError>)
        requires
            old(self).wf(),
        ensures
            final(self).wf(),
            final(self)@ == (UserView { habits: removed(old(self)@.habits, name@), ..old(self)@ }),
            r == match key_position(old(self)@.habits, name@) {
                Some(_) => Ok::<(), HabitError>(()),
                None => Err(HabitError::NotFound),
            },
    {
        match self.find(&name) {
            Some(i) => {
                let ghost before = self.data@;
                let ghost hs = self@.habits;
                proof {
                    lemma_entries_remove(hs, i as int);
                    before.remove_ensures(i as int);
                }
                self.data.remove(i);
                assert(self@.habits =~= hs.remove(i as int));
                assert forall|k: int| 0 <= k < self.data@.len() implies (#[trigger] self.data@[k]).1.wf() by {
                    if k < i {
                        assert(self.data@[k] == before[k]);
                    } else {
                        assert(self.data@[k] == before[k + 1]);
                    }
                }
                Ok(())
            },
            None => Err(HabitError::NotFound),
        }
    }

    /// Hides the habit called `name` from day listings, or shows it again; its
    /// records stay. An error if there is no such habit.
    pub fn hide_habit(&mut self, name: String) -> (r: Result<(), HabitError>)
        requires
            old(self).wf(),
        ensures
            final(self).wf(),
            final(self)@ == (UserView { habits: hidden(old(self)@.habits, name@), ..old(self)@ }),
            r == match key_position(old(self)@.habits, name@) {
                Some(_) => Ok::<(), HabitError>(()),
                None => Err(HabitError::NotFound),
            },
    {
        match self.find(&name) {
            Some(i) => {
                let ghost before = self.data@;
                let ghost hs = self@.habits;
                proof {
                    self.lemma_view_at(i as int);
                }
                self.data[i].1.toggle_active();
                assert(self.data@ == before.update(i as int, (before[i as int].0, self.data@[i as int].1)));
                assert(self@.habits =~= hs.update(i as int, (name@, HabitView { active: !hs[i as int].1.active, ..hs[i as int].1 })));
                assert forall|k: int| 0 <= k < self.data@.len() implies (#[trigger] self.data@[k]).1.wf() by {
                    if k != i {
                        assert(self.data@[k] == before[k]);
                    }
                }
                Ok(())
            },
            None => Err(HabitError::NotFound),
        }
    }
    /// Edits the day `date` of the habit named by `args[2]` with the command
    /// named by `args[1]` (see [`HabitData::edit_node`]).
    pub fn edit_habit_node(&mut self, args: Vec<String>, date: HabitID, value: i32) -> (r: Result<(), HabitError>)
        requires
            old(self).wf(),
        ensures
            final(self).wf(),
            (r, final(self)@) == edit_by_args(old(self)@, args@.map_values(|a: String| a@), date, value),
    {
        let ghost av = args@.map_values(|a: String| a@);
        if args.len() < 3 {
            return Err(HabitError::InvalidArgument);
        }
        assert(av[1] == args@[1]@ && av[2] == args@[2]@);
        match self.find(&args[2]) {
            Some(i) => {
                let ghost before = self.data@;
                let ghost hs = self@.habits;
                proof {
                    self.lemma_view_at(i as int);
                }
                let r = self.data[i].1.edit_node(date, args[1].as_str(), value);
                assert(self.data@ == before.update(i as int, (before[i as int].0, self.data@[i as int].1)));
                assert(self@.habits =~= hs.update(i as int, (av[2], self.data@[i as int].1@)));
                assert forall|k: int| 0 <= k < self.data@.len() implies (#[trigger] self.data@[k]).1.wf() by {
                    if k != i {
                        assert(self.data@[k] == before[k]);
                    }
                }
                proof {
                    lemma_entries_map_update(hs, i as int, self.data@[i as int].1@);
                }
                r
            },
            None => Err(HabitError::NotFound),
        }
    }

    /// Lists, for each active habit with a record on `date`, its name, status,
    /// value and goal that day. Habits without a record that day, and hidden
    /// ones, are left out. An error if the user keeps no habit at all.
    pub fn habit_list_for_day(&self, date: HabitID) -> (r: Result<Vec<DayEntry>, HabitError>)
        requires
            self.wf(),
        ensures
            match day_list(self@.habits, date) {
                Ok(l) => r is Ok && r->Ok_0@.map_values(|e: DayEntry| entry_view(e)) == l,
                Err(e) => r == Err::<Vec<DayEntry>, HabitError>(e),
            },
    {
        if self.data.len() == 0 {
            return Err(HabitError::NotFound);
        }
        let ghost hs = self@.habits;
        let mut out: Vec<DayEntry> = Vec::new();
        let mut i: usize = 0;
        assert(hs.subrange(0, 0) == Seq::<(Seq<char>, HabitView)>::empty());
        assert(out@.map_values(|e: DayEntry| entry_view(e)) == Seq::<(Seq<char>, HabitNode)>::empty());
        while i < self.data.len()
            invariant
                self.wf(),
                hs == self@.habits,
                hs.len() == self.data@.len(),
                i <= self.data.len(),
                out@.map_values(|e: DayEntry| entry_view(e)) == listing(hs.subrange(0, i as int), date),
            decreases self.data.len() - i,
        {
            proof {
                self.lemma_view_at(i as int);
            }
            assert(hs.subrange(0, i + 1).drop_last() == hs.subrange(0, i as int));
            let habit = &self.data[i].1;
            if habit.is_active() {
                match habit.node(date) {
                    Some(n) => {
                        let ghost before = out@;
                        let e = DayEntry { name: self.data[i].0.clone(), status: n.status, value: n.value, goal: n.goal };
                        out.push(e);
                        assert(out@.map_values(|e: DayEntry| entry_view(e))
                            == before.map_values(|e: DayEntry| entry_view(e)).push(entry_view(e)));
                    },
                    None => {},
                }
            }
            i = i + 1;
        }
        assert(hs.subrange(0, hs.len() as int) == hs);
        Ok(out)
    }
}

} // verus!
