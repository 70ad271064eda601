//! The task store: an ordered collection of named tasks, each with a
//! completion flag. Names are unique within the store and never empty.

use vstd::prelude::*;

verus! {

/// One to-do item: a name (the unique key) and a completion flag.
pub struct Task {
    pub name: String,
    pub completed: bool,
}

/// The in-memory owner of all tasks, in creation order.
pub struct Todo {
    pub tasks: Vec<Task>,
}

/// Abstract contents of a task sequence: each task as a (name, completed)
/// pair, in order.
pub open spec fn tasks_model(ts: Seq<Task>) -> Seq<(Seq<char>, bool)> {
    Seq::new(ts.len(), |i: int| (ts[i].name@, ts[i].completed))
}

/// The contents after toggling: every pair carrying `name` has its flag
/// flipped, every other pair is untouched.
pub open spec fn spec_toggle(m: Seq<(Seq<char>, bool)>, name: Seq<char>) -> Seq<(Seq<char>, bool)> {
    Seq::new(m.len(), |i: int| if m[i].0 == name { (m[i].0, !m[i].1) } else { m[i] })
}

/// Keeps the pairs whose name differs from `name`.
pub open spec fn keep_name(name: Seq<char>) -> spec_fn((Seq<char>, bool)) -> bool {
    |p: (Seq<char>, bool)| p.0 != name
}

/// The contents after deleting `name`: the pairs with another name, in order.
pub open spec fn spec_remove(m: Seq<(Seq<char>, bool)>, name: Seq<char>) -> Seq<(Seq<char>, bool)> {
    m.filter(keep_name(name))
}

/// Keeps the pairs that are not completed.
pub open spec fn keep_active() -> spec_fn((Seq<char>, bool)) -> bool {
    |p: (Seq<char>, bool)| !p.1
}

/// Selects the completed pairs.
pub open spec fn is_completed() -> spec_fn((Seq<char>, bool)) -> bool {
    |p: (Seq<char>, bool)| p.1
}

/// The contents after clearing: exactly the incomplete pairs, in order.
pub open spec fn spec_clear(m: Seq<(Seq<char>, bool)>) -> Seq<(Seq<char>, bool)> {
    m.filter(keep_active())
}

/// How many pairs are completed.
pub open spec fn spec_completed_count(m: Seq<(Seq<char>, bool)>) -> nat {
    m.filter(is_completed()).len()
}

impl Todo {
    /// Abstract contents: the (name, completed) pair of each task, in order.
    pub open spec fn model(self) -> Seq<(Seq<char>, bool)> {
        tasks_model(self.tasks@)
    }

    /// Well-formedness: no two tasks share a name, and no name is empty.
    pub open spec fn wf(self) -> bool {
        &&& forall|i: int, j: int|
            0 <= i < j < self.model().len()
                ==> #[trigger] self.model()[i].0 != #[trigger] self.model()[j].0
        &&& forall|i: int| 0 <= i < self.model().len() ==> #[trigger] self.model()[i].0.len() > 0
    }

    /// Whether some task in the store carries this exact name.
    pub open spec fn has_name(self, name: Seq<char>) -> bool {
        exists|i: int| 0 <= i < self.model().len() && #[trigger] self.model()[i].0 == name
    }

    /// The position of the task carrying `name` (meaningful when `has_name`).
    pub open spec fn name_at(self, name: Seq<char>) -> int {
        choose|i: int| 0 <= i < self.model().len() && #[trigger] self.model()[i].0 == name
    }

    /// The completion flag of the task carrying `name`, or `None` when no
    /// task does.
    pub open spec fn spec_status(self, name: Seq<char>) -> Option<bool> {
        if self.has_name(name) {
            Some(self.model()[self.name_at(name)].1)
        } else {
            None
        }
    }

    /// An empty store.
    pub fn new() -> (r: Self)
        ensures
            r.model().len() == 0,
            r.wf(),
    {
        Self::default()
    }

    /// Creates a task with the given name and `completed == false` at the end
    /// of the store, unless the name is already taken; then the store is left
    /// unchanged. Returns whether the task was created.
    pub fn add_todo(&mut self, name: String) -> (created: bool)
        requires
            old(self).wf(),
            name@.len() > 0,
        ensures
            final(self).wf(),
            created == !old(self).has_name(name@),
            !created ==> final(self).model() == old(self).model(),
            created ==> final(self).model() == old(self).model().push((name@, false)),
    {
        match find_index(&self.tasks, &name) {
            Option::Some(i) => {
                proof {
                    assert(self.model()[i as int].0 == name@);
                }
                false
            },
            Option::None => {
                proof {
                    assert(!old(self).has_name(name@)) by {
                        if old(self).has_name(name@) {
                            let j = choose|j: int|
                                0 <= j < old(self).model().len() && old(self).model()[j].0
                                    == name@;
                            assert(old(self).tasks@[j].name@ != name@);
                        }
                    }
                }
                self.tasks.push((Task { name, completed: false }));
                proof {
                    assert(self.model() =~= old(self).model().push((name@, false)));
                    assert forall|i: int, j: int|
                        0 <= i < j < self.model().len() implies #[trigger] self.model()[i].0
                        != #[trigger] self.model()[j].0 by {
                        if j == self.model().len() - 1 {
                            assert(old(self).tasks@[i].name@ != name@);
                        }
                    }
                }
                true
            },
        }
    }

    /// The completion flag of the task carrying `name`, or `None` when no
    /// task does. Read-only.
    pub fn get_status(&self, name: &str) -> (r: Option<bool>)
        requires
            self.wf(),
        ensures
            r is Some <==> self.has_name(name@),
            forall|i: int|
                0 <= i < self.model().len() && #[trigger] self.model()[i].0 == name@ ==> r
                    == Some(self.model()[i].1),
            r == self.spec_status(name@),
    {
        let key: String = name.to_owned();
        match find_index(&self.tasks, &key) {
            Option::Some(i) => {
                let c = self.tasks[i].completed;
                proof {
                    assert(self.model()[i as int].0 == name@);
                    assert forall|j: int|
                        0 <= j < self.model().len() && #[trigger] self.model()[j].0
                            == name@ implies self.model()[j].1 == c by {
                        if j != i as int {
                            let lo = if j < i as int {
                                j
                            } else {
                                i as int
                            };
                            let hi = if j < i as int {
                                i as int
                            } else {
                                j
                            };
                            assert(self.model()[lo].0 != self.model()[hi].0);
                        }
                    }
                }
                Some(c)
            },
            Option::None => {
                proof {
                    assert(!self.has_name(name@)) by {
                        if self.has_name(name@) {
                            let j = choose|j: int|
                                0 <= j < self.model().len() && self.model()[j].0 == name@;
                            assert(self.tasks@[j].name@ != name@);
                        }
                    }
                }
                None
            },
        }
    }

    /// Flips the completion flag of the task carrying `name` and returns the
    /// new flag, or returns `None` and leaves the store unchanged when no
    /// task does.
    pub fn toggle(&mut self, name: &str) -> (r: Option<bool>)
        requires
            old(self).wf(),
        ensures
            final(self).wf(),
            final(self).model() == spec_toggle(old(self).model(), name@),
            r is Some <==> old(self).has_name(name@),
            r is None ==> final(self).model() == old(self).model(),
            forall|i: int|
                0 <= i < old(self).model().len() && #[trigger] old(self).model()[i].0 == name@
                    ==> r == Some(!old(self).model()[i].1),
    {
        let key: String = name.to_owned();
        match find_index(&self.tasks, &key) {
            Option::Some(i) => {
                let nm = self.tasks[i].name.clone();
                let c = self.tasks[i].completed;
                self.tasks[i] = (Task { name: nm, completed: !c });
                proof {
                    let m = old(self).model();
                    assert(m[i as int].0 == name@);
                    assert forall|k: int|
                        0 <= k < m.len() && k != i as int implies #[trigger] m[k].0 != name@ by {
                        let lo = if k < i as int {
                            k
                        } else {
                            i as int
                        };
                        let hi = if k < i as int {
                            i as int
                        } else {
                            k
                        };
                        assert(m[lo].0 != m[hi].0);
                    }
                    assert(self.model() =~= spec_toggle(m, name@));
                    assert forall|a: int, b: int|
                        0 <= a < b < self.model().len() implies #[trigger] self.model()[a].0
                        != #[trigger] self.model()[b].0 by {
                        assert(m[a].0 != m[b].0);
                        assert(self.model()[a].0 == m[a].0);
                        assert(self.model()[b].0 == m[b].0);
                    }
                    assert forall|a: int|
                        0 <= a < self.model().len() implies #[trigger] self.model()[a].0.len()
                        > 0 by {
                        assert(self.model()[a].0 == m[a].0);
                    }
                }
                Some(!c)
            },
            Option::None => {
                proof {
                    let m = old(self).model();
                    assert forall|k: int| 0 <= k < m.len() implies #[trigger] m[k].0 != name@ by {
                        assert(old(self).tasks@[k].name@ != name@);
                    }
                    assert(self.model() =~= spec_toggle(m, name@));
                }
                None
            },
        }
    }

    /// Removes the task carrying `name`, preserving the order of the rest.
    /// Returns whether a task was removed; when none carries the name the
    /// store is left unchanged.
    pub fn delete(&mut self, name: &str) -> (removed: bool)
        requires
            old(self).wf(),
        ensures
            final(self).wf(),
            final(self).model() == spec_remove(old(self).model(), name@),
            removed == old(self).has_name(name@),
            !removed ==> final(self).model() == old(self).model(),
    {
        let key: String = name.to_owned();
        let total_before = self.tasks.len();
        let mut kept: Vec<Task> = Vec::new();
        let mut i: usize = 0;
        while i < total_before
            invariant
                self.tasks@ == old(self).tasks@,
                key@ == name@,
                i <= total_before,
                total_before == self.tasks@.len(),
                tasks_model(kept@) == tasks_model(self.tasks@).subrange(0, i as int).filter(
                    keep_name(name@),
                ),
            decreases total_before - i,
        {
            let ghost m = tasks_model(self.tasks@);
            let ghost pre = tasks_model(kept@);
            let same = self.tasks[i].name == key;
            if !same {
                let t = (Task {
                    name: self.tasks[i].name.clone(),
                    completed: self.tasks[i].completed,
                });
                kept.push(t);
                proof {
                    assert(tasks_model(kept@) =~= pre.push((m[i as int].0, m[i as int].1)));
                }
            }
            proof {
                let sub = m.subrange(0, i as int);
                assert(m.subrange(0, i as int + 1).drop_last() =~= sub);
                assert(m.subrange(0, i as int + 1).last() == m[i as int]);
                lemma_filter_unfold(m.subrange(0, i as int + 1), keep_name(name@));
                if !same {
                    assert(keep_name(name@)(m[i as int]));
                    assert(tasks_model(kept@) =~= sub.filter(keep_name(name@)).push(m[i as int]));
                } else {
                    assert(m[i as int].0 == name@);
                    assert(!keep_name(name@)(m[i as int]));
                }
            }
            i = i + 1;
        }
        proof {
            let m = tasks_model(self.tasks@);
            assert(m.subrange(0, total_before as int) =~= m);
        }
        self.tasks = kept;
        let total_after = self.tasks.len();
        let removed = total_after < total_before;
        proof {
            let m = old(self).model();
            let pred = keep_name(name@);
            lemma_filter_keeps_wf(m, pred);
            assert forall|a: int|
                0 <= a < self.model().len() implies #[trigger] self.model()[a].0.len() > 0 by {
                let b = choose|b: int| 0 <= b < m.len() && m.filter(pred)[a] == m[b];
                assert(m[b].0.len() > 0);
            }
            if old(self).has_name(name@) {
                let j = choose|j: int| 0 <= j < m.len() && m[j].0 == name@;
                assert(!pred(m[j]));
                lemma_filter_drops(m, pred, j);
            } else {
                assert forall|k: int| 0 <= k < m.len() implies pred(#[trigger] m[k]) by {
                    assert(old(self).tasks@[k].name@ == m[k].0);
                    if m[k].0 == name@ {
                        assert(old(self).has_name(name@));
                    }
                }
                lemma_filter_all(m, pred);
            }
        }
        removed
    }

    /// Removes every completed task, preserving the order of the incomplete
    /// ones. Returns how many tasks were removed (possibly zero).
    pub fn clear(&mut self) -> (n: usize)
        requires
            old(self).wf(),
        ensures
            final(self).wf(),
            final(self).model() == spec_clear(old(self).model()),
            n == spec_completed_count(old(self).model()),
            n + final(self).model().len() == old(self).model().len(),
    {
        let total_before = self.tasks.len();
        let mut kept: Vec<Task> = Vec::new();
        let mut i: usize = 0;
        while i < total_before
            invariant
                self.tasks@ == old(self).tasks@,
                i <= total_before,
                total_before == self.tasks@.len(),
                tasks_model(kept@) == tasks_model(self.tasks@).subrange(0, i as int).filter(
                    keep_active(),
                ),
            decreases total_before - i,
        {
            let ghost m = tasks_model(self.tasks@);
            let ghost pre = tasks_model(kept@);
            let done = self.tasks[i].completed;
            if !done {
                let t = (Task { name: self.tasks[i].name.clone(), completed: false });
                kept.push(t);
                proof {
                    assert(tasks_model(kept@) =~= pre.push((m[i as int].0, m[i as int].1)));
                }
            }
            proof {
                let sub = m.subrange(0, i as int);
                assert(m.subrange(0, i as int + 1).drop_last() =~= sub);
                assert(m.subrange(0, i as int + 1).last() == m[i as int]);
                lemma_filter_unfold(m.subrange(0, i as int + 1), keep_active());
                if !done {
                    assert(keep_active()(m[i as int]));
                    assert(tasks_model(kept@) =~= sub.filter(keep_active()).push(m[i as int]));
                } else {
                    assert(!keep_active()(m[i as int]));
                }
            }
            i = i + 1;
        }
        proof {
            let m = tasks_model(self.tasks@);
            assert(m.subrange(0, total_before as int) =~= m);
        }
        self.tasks = kept;
        let total_after = self.tasks.len();
        let diff = total_before - total_after;
        proof {
            let m = old(self).model();
            lemma_filter_keeps_wf(m, keep_active());
            assert forall|a: int|
                0 <= a < self.model().len() implies #[trigger] self.model()[a].0.len() > 0 by {
                let b = choose|b: int| 0 <= b < m.len() && m.filter(keep_active())[a] == m[b];
                assert(m[b].0.len() > 0);
            }
            lemma_filter_split(m, keep_active(), is_completed());
        }
        diff
    }

    /// Removes every task unconditionally: the store ends empty.
    pub fn reset(&mut self)
        ensures
            final(self).wf(),
            final(self).model().len() == 0,
    {
        self.tasks.clear();
    }

    /// The full ordered contents as (name, completed) pairs. Read-only.
    pub fn list(&self) -> (r: Vec<(String, bool)>)
        ensures
            r@.len() == self.model().len(),
            forall|i: int|
                0 <= i < r@.len() ==> #[trigger] r@[i].0@ == self.model()[i].0 && r@[i].1
                    == self.model()[i].1,
    {
        let n = self.tasks.len();
        let mut out: Vec<(String, bool)> = Vec::new();
        let mut i: usize = 0;
        while i < n
            invariant
                i <= n,
                n == self.tasks@.len(),
                out@.len() == i,
                forall|k: int|
                    0 <= k < i ==> #[trigger] out@[k].0@ == self.model()[k].0 && out@[k].1
                        == self.model()[k].1,
            decreases n - i,
        {
            out.push((self.tasks[i].name.clone(), self.tasks[i].completed));
            i = i + 1;
        }
        out
    }

    /// How many tasks the store holds.
    pub fn len(&self) -> (n: usize)
        ensures
            n == self.model().len(),
    {
        self.tasks.len()
    }
}

impl Default for Todo {
    /// An empty store.
    fn default() -> (r: Self)
        ensures
            r.model().len() == 0,
            r.wf(),
    {
        Todo { tasks: Vec::new() }
    }
}

/// The position of the first task carrying `name`, or `None` when no task
/// does.
fn find_index(tasks: &Vec<Task>, name: &String) -> (r: Option<usize>)
    ensures
        match r {
            Option::Some(i) => i < tasks@.len() && tasks@[i as int].name@ == name@,
            Option::None => forall|k: int| 0 <= k < tasks@.len() ==> #[trigger] tasks@[k].name@ != name@,
        },
{
    let n = tasks.len();
    let mut i: usize = 0;
    while i < n
        invariant
            i <= n,
            n == tasks@.len(),
            forall|k: int| 0 <= k < i ==> #[trigger] tasks@[k].name@ != name@,
        decreases n - i,
    {
        if tasks[i].name == *name {
            return Some(i);
        }
        i = i + 1;
    }
    None
}

/// One unfolding step of `Seq::filter` for a non-empty sequence.
proof fn lemma_filter_unfold<A>(s: Seq<A>, pred: spec_fn(A) -> bool)
    requires
        s.len() > 0,
    ensures
        pred(s.last()) ==> s.filter(pred) == s.drop_last().filter(pred).push(s.last()),
        !pred(s.last()) ==> s.filter(pred) == s.drop_last().filter(pred),
{
    reveal(Seq::filter);
}

/// A filter that keeps every element returns the sequence itself.
proof fn lemma_filter_all<A>(s: Seq<A>, pred: spec_fn(A) -> bool)
    requires
        forall|i: int| 0 <= i < s.len() ==> pred(#[trigger] s[i]),
    ensures
        s.filter(pred) == s,
    decreases s.len(),
{
    reveal(Seq::filter);
    if s.len() > 0 {
        lemma_filter_all(s.drop_last(), pred);
        assert(s.drop_last().push(s.last()) =~= s);
    }
}

/// A filter that drops some element returns a strictly shorter sequence.
proof fn lemma_filter_drops<A>(s: Seq<A>, pred: spec_fn(A) -> bool, i: int)
    requires
        0 <= i < s.len(),
        !pred(s[i]),
    ensures
        s.filter(pred).len() < s.len(),
    decreases s.len(),
{
    reveal(Seq::filter);
    s.lemma_filter_len(pred);
    if i == s.len() - 1 {
        s.drop_last().lemma_filter_len(pred);
    } else {
        lemma_filter_drops(s.drop_last(), pred, i);
    }
}

/// Two complementary filters split a sequence's length.
proof fn lemma_filter_split<A>(s: Seq<A>, p: spec_fn(A) -> bool, q: spec_fn(A) -> bool)
    requires
        forall|i: int| 0 <= i < s.len() ==> (q(#[trigger] s[i]) <==> !p(s[i])),
    ensures
        s.filter(p).len() + s.filter(q).len() == s.len(),
    decreases s.len(),
{
    reveal(Seq::filter);
    if s.len() > 0 {
        lemma_filter_split(s.drop_last(), p, q);
    }
}

/// Filtering keeps names unique, and every kept pair stems from the source.
proof fn lemma_filter_keeps_wf(m: Seq<(Seq<char>, bool)>, pred: spec_fn((Seq<char>, bool)) -> bool)
    requires
        forall|i: int, j: int| 0 <= i < j < m.len() ==> #[trigger] m[i].0 != #[trigger] m[j].0,
    ensures
        forall|i: int, j: int|
            0 <= i < j < m.filter(pred).len() ==> #[trigger] m.filter(pred)[i].0
                != #[trigger] m.filter(pred)[j].0,
        forall|j: int|
            0 <= j < m.filter(pred).len() ==> exists|i: int|
                0 <= i < m.len() && #[trigger] m.filter(pred)[j] == m[i],
    decreases m.len(),
{
    reveal(Seq::filter);
    if m.len() > 0 {
        let d = m.drop_last();
        let fd = d.filter(pred);
        lemma_filter_keeps_wf(d, pred);
        assert forall|j: int|
            0 <= j < m.filter(pred).len() implies exists|i: int|
            0 <= i < m.len() && #[trigger] m.filter(pred)[j] == m[i] by {
            if j < fd.len() {
                let i = choose|i: int| 0 <= i < d.len() && fd[j] == d[i];
                assert(m.filter(pred)[j] == m[i]);
            } else {
                assert(m.filter(pred)[j] == m[m.len() - 1]);
            }
        }
        assert forall|i: int, j: int|
            0 <= i < j < m.filter(pred).len() implies #[trigger] m.filter(pred)[i].0
            != #[trigger] m.filter(pred)[j].0 by {
            if j < fd.len() {
                assert(fd[i].0 != fd[j].0);
            } else {
                let a = choose|a: int| 0 <= a < d.len() && fd[i] == d[a];
                assert(m[a].0 != m[m.len() - 1].0);
            }
        }
    }
}

/// No two positions in a well-formed store carry the same name: a duplicate
/// name can never arise.
pub proof fn lemma_names_unique(s: Todo, i: int, j: int)
    requires
        s.wf(),
        0 <= i < s.model().len(),
        0 <= j < s.model().len(),
        i != j,
    ensures
        s.model()[i].0 != s.model()[j].0,
{
    if i < j {
        assert(s.model()[i].0 != s.model()[j].0);
    } else {
        assert(s.model()[j].0 != s.model()[i].0);
    }
}

/// Toggling the same name twice restores every task to its original state.
pub proof fn lemma_toggle_involution(m: Seq<(Seq<char>, bool)>, name: Seq<char>)
    ensures
        spec_toggle(spec_toggle(m, name), name) == m,
{
    assert(spec_toggle(spec_toggle(m, name), name) =~= m);
}

/// The listing and the status query agree: every listed task resolves to its
/// listed flag, and every resolvable name appears in the listing.
pub proof fn lemma_list_matches_query(s: Todo)
    requires
        s.wf(),
    ensures
        forall|i: int|
            0 <= i < s.model().len() ==> #[trigger] s.spec_status(s.model()[i].0) == Some(
                s.model()[i].1,
            ),
        forall|name: Seq<char>| #[trigger] s.spec_status(name) is Some ==> s.has_name(name),
{
    assert forall|i: int|
        0 <= i < s.model().len() implies #[trigger] s.spec_status(s.model()[i].0) == Some(
        s.model()[i].1,
    ) by {
        let name = s.model()[i].0;
        assert(s.has_name(name));
        let j = s.name_at(name);
        assert(0 <= j < s.model().len() && s.model()[j].0 == name);
        if i != j {
            lemma_names_unique(s, i, j);
        }
    }
}

} // verus!

