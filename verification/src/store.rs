//! The todo store: the persisted collection of todos and its queries.
//!
//! The store models one table with columns `(id, content, expire_time)`.
//! Rows are kept in creation order; the store assigns ids from a counter
//! that only grows, so ids strictly increase along that order and are never
//! reused. Dated and undated todos never appear together in one result set:
//! [`TodoStore::find_by_date`] returns the todos of one calendar day in
//! ascending `expire_time` order, [`TodoStore::find_undated`] returns the
//! undated todos in ascending id order, and [`TodoStore::days_with_todos`]
//! projects one month onto the set of day numbers that carry a todo.

use vstd::prelude::*;
use vstd::seq_lib::group_seq_lib_default;
use vstd::seq_lib::group_to_multiset_ensures;

use crate::date_time::{
    day_end, day_start, lemma_same_day_iff_within_bounds, spec_day_end, spec_day_start,
    spec_dt_lt, Date, DateTime,
};
use crate::todo::{Todo, TodoView};

verus! {

/// An undated todo: no expiry timestamp.
pub open spec fn is_undated(t: TodoView) -> bool {
    t.expire_time is None
}

/// A todo dated on the calendar day `d`.
pub open spec fn dated_on(t: TodoView, d: Date) -> bool {
    t.expire_time matches Some(x) && x.date == d
}

/// The undated rows of a table, in row order.
pub open spec fn undated_rows(rows: Seq<TodoView>) -> Seq<TodoView> {
    rows.filter(|t: TodoView| is_undated(t))
}

/// The rows dated on day `d`, in row order.
pub open spec fn rows_on_day(rows: Seq<TodoView>, d: Date) -> Seq<TodoView> {
    rows.filter(|t: TodoView| dated_on(t, d))
}

/// The rows that survive deleting the ids in `ids`, in row order.
pub open spec fn remaining_rows(rows: Seq<TodoView>, ids: Seq<i32>) -> Seq<TodoView> {
    rows.filter(|t: TodoView| !ids.contains(t.id))
}

/// The rows after overwriting content and expiry of the row with id `id`;
/// rows with other ids are untouched, and a missing id changes nothing.
pub open spec fn updated_rows(
    rows: Seq<TodoView>,
    id: i32,
    content: Seq<char>,
    expire_time: Option<DateTime>,
) -> Seq<TodoView> {
    rows.map_values(
        |t: TodoView|
            if t.id == id {
                TodoView { id: t.id, content, expire_time }
            } else {
                t
            },
    )
}

/// Some row of the table is dated on day `d`.
pub open spec fn some_row_on_day(rows: Seq<TodoView>, d: Date) -> bool {
    exists|i: int| 0 <= i < rows.len() && dated_on(#[trigger] rows[i], d)
}

/// Query order for one day's todos: ascending expiry, rows with equal
/// expiry in ascending id (creation) order. Meaningful only for dated rows.
pub open spec fn time_then_id_le(a: TodoView, b: TodoView) -> bool {
    let ta = a.expire_time->Some_0;
    let tb = b.expire_time->Some_0;
    if ta != tb {
        spec_dt_lt(ta, tb)
    } else {
        a.id <= b.id
    }
}

/// The sequence is sorted by [`time_then_id_le`].
pub open spec fn ordered_by_time(s: Seq<TodoView>) -> bool {
    forall|i: int, j: int| 0 <= i < j < s.len() ==> time_then_id_le(#[trigger] s[i], #[trigger] s[j])
}

/// No two entries carry the same id.
pub open spec fn ids_distinct(s: Seq<TodoView>) -> bool {
    forall|i: int, j: int| 0 <= i < j < s.len() ==> (#[trigger] s[i]).id != (#[trigger] s[j]).id
}

/// Table invariant: ids strictly increase in row order (so they are unique),
/// every id is at least 1, and every timestamp names a real calendar time.
pub open spec fn rows_wf(rows: Seq<TodoView>) -> bool {
    &&& forall|i: int, j: int|
        0 <= i < j < rows.len() ==> (#[trigger] rows[i]).id < (#[trigger] rows[j]).id
    &&& forall|i: int| 0 <= i < rows.len() ==> 1 <= (#[trigger] rows[i]).id
    &&& forall|i: int|
        0 <= i < rows.len() ==> ((#[trigger] rows[i]).expire_time matches Some(t) ==> t.wf())
}

/// Appending a row extends the undated query result exactly when the row is
/// undated.
pub proof fn lemma_undated_rows_push(rows: Seq<TodoView>, t: TodoView)
    ensures
        is_undated(t) ==> undated_rows(rows.push(t)) == undated_rows(rows).push(t),
        !is_undated(t) ==> undated_rows(rows.push(t)) == undated_rows(rows),
{
    reveal(Seq::filter);
    assert(rows.push(t).drop_last() =~= rows);
    assert(rows.push(t).last() == t);
}

/// Appending a row extends the survivors of a deletion exactly when the
/// row's id is not among the deleted ids.
pub proof fn lemma_remaining_rows_push(rows: Seq<TodoView>, t: TodoView, ids: Seq<i32>)
    ensures
        !ids.contains(t.id) ==> remaining_rows(rows.push(t), ids) == remaining_rows(
            rows,
            ids,
        ).push(t),
        ids.contains(t.id) ==> remaining_rows(rows.push(t), ids) == remaining_rows(rows, ids),
{
    reveal(Seq::filter);
    assert(rows.push(t).drop_last() =~= rows);
    assert(rows.push(t).last() == t);
}

/// Deleting ids that occur in no row leaves the table unchanged; in
/// particular, deleting the empty set is a no-op.
pub proof fn lemma_remaining_rows_no_match(rows: Seq<TodoView>, ids: Seq<i32>)
    requires
        forall|i: int| 0 <= i < rows.len() ==> !ids.contains((#[trigger] rows[i]).id),
    ensures
        remaining_rows(rows, ids) == rows,
    decreases rows.len(),
{
    reveal(Seq::filter);
    if rows.len() == 0 {
        assert(remaining_rows(rows, ids) =~= rows);
    } else {
        let sub = rows.drop_last();
        assert(forall|i: int| 0 <= i < sub.len() ==> sub[i] == rows[i]);
        lemma_remaining_rows_no_match(sub, ids);
        assert(remaining_rows(rows, ids) =~= rows);
    }
}

/// Deletion keeps the surviving rows in row order, so the table invariant
/// survives it; and every survivor was a row of the table before.
pub proof fn lemma_remaining_rows_wf(rows: Seq<TodoView>, ids: Seq<i32>)
    requires
        rows_wf(rows),
    ensures
        rows_wf(remaining_rows(rows, ids)),
        forall|k: int|
            0 <= k < remaining_rows(rows, ids).len() ==> rows.contains(
                #[trigger] remaining_rows(rows, ids)[k],
            ),
    decreases rows.len(),
{
    reveal(Seq::filter);
    if rows.len() == 0 {
    } else {
        let sub = rows.drop_last();
        let last = rows.last();
        assert(forall|i: int| 0 <= i < sub.len() ==> sub[i] == rows[i]);
        lemma_remaining_rows_wf(sub, ids);
        let f = remaining_rows(rows, ids);
        let fsub = remaining_rows(sub, ids);
        assert(forall|k: int| 0 <= k < fsub.len() ==> rows.contains(#[trigger] fsub[k])) by {
            assert(forall|k: int|
                0 <= k < fsub.len() ==> sub.contains(#[trigger] fsub[k]) && rows.contains(
                    fsub[k],
                ));
        }
        if !ids.contains(last.id) {
            assert(f == fsub.push(last));
            assert(forall|k: int| 0 <= k < fsub.len() ==> (#[trigger] fsub[k]).id < last.id) by {
                assert forall|k: int| 0 <= k < fsub.len() implies (#[trigger] fsub[k]).id
                    < last.id by {
                    let w = choose|w: int| 0 <= w < sub.len() && sub[w] == fsub[k];
                    assert(rows[w] == fsub[k]);
                    assert(rows[rows.len() - 1] == last);
                }
            }
            assert(rows_wf(f));
        } else {
            assert(f == fsub);
        }
    }
}

/// Appending a row extends one day's query result exactly when the row is
/// dated on that day.
pub proof fn lemma_rows_on_day_push(rows: Seq<TodoView>, t: TodoView, d: Date)
    ensures
        dated_on(t, d) ==> rows_on_day(rows.push(t), d) == rows_on_day(rows, d).push(t),
        !dated_on(t, d) ==> rows_on_day(rows.push(t), d) == rows_on_day(rows, d),
{
    reveal(Seq::filter);
    assert(rows.push(t).drop_last() =~= rows);
    assert(rows.push(t).last() == t);
}

/// One day's query keeps the surviving rows in row order, so its rows keep
/// the table invariant; and every returned row is a row of the table.
pub proof fn lemma_rows_on_day_wf(rows: Seq<TodoView>, d: Date)
    requires
        rows_wf(rows),
    ensures
        rows_wf(rows_on_day(rows, d)),
        forall|k: int|
            0 <= k < rows_on_day(rows, d).len() ==> rows.contains(#[trigger] rows_on_day(rows, d)[k]),
    decreases rows.len(),
{
    reveal(Seq::filter);
    if rows.len() == 0 {
    } else {
        let sub = rows.drop_last();
        let last = rows.last();
        assert(forall|i: int| 0 <= i < sub.len() ==> sub[i] == rows[i]);
        lemma_rows_on_day_wf(sub, d);
        let f = rows_on_day(rows, d);
        let fsub = rows_on_day(sub, d);
        assert(forall|k: int| 0 <= k < fsub.len() ==> rows.contains(#[trigger] fsub[k])) by {
            assert(forall|k: int|
                0 <= k < fsub.len() ==> sub.contains(#[trigger] fsub[k]) && rows.contains(fsub[k]));
        }
        if dated_on(last, d) {
            assert(f == fsub.push(last));
            assert forall|k: int| 0 <= k < fsub.len() implies (#[trigger] fsub[k]).id < last.id by {
                let w = choose|w: int| 0 <= w < sub.len() && sub[w] == fsub[k];
                assert(rows[w] == fsub[k]);
                assert(rows[rows.len() - 1] == last);
            }
            assert(rows_wf(f));
        } else {
            assert(f == fsub);
        }
    }
}

/// A reordering of rows with strictly increasing ids still has no two rows
/// sharing an id.
proof fn lemma_permutation_ids_distinct(orig: Seq<TodoView>, perm: Seq<TodoView>)
    requires
        rows_wf(orig),
        perm.to_multiset() == orig.to_multiset(),
    ensures
        ids_distinct(perm),
{
    broadcast use group_to_multiset_ensures;
    broadcast use vstd::multiset::group_multiset_axioms;

    assert(orig.no_duplicates());
    orig.lemma_multiset_has_no_duplicates();
    perm.lemma_multiset_has_no_duplicates_conv();
    assert forall|i: int, j: int| 0 <= i < j < perm.len() implies (#[trigger] perm[i]).id != (
    #[trigger] perm[j]).id by {
        if perm[i].id == perm[j].id {
            assert(perm[i] != perm[j]);
            assert(perm.contains(perm[i]) && perm.contains(perm[j]));
            assert(perm.to_multiset().count(perm[i]) > 0 && perm.to_multiset().count(perm[j]) > 0);
            assert(orig.to_multiset().count(perm[i]) > 0 && orig.to_multiset().count(perm[j]) > 0);
            assert(orig.contains(perm[i]) && orig.contains(perm[j]));
            let k = choose|k: int| 0 <= k < orig.len() && orig[k] == perm[i];
            let l = choose|l: int| 0 <= l < orig.len() && orig[l] == perm[j];
            assert(k != l);
            assert(false);
        }
    }
}

/// The query order on dated todos is total.
proof fn lemma_time_order_total(a: TodoView, b: TodoView)
    ensures
        time_then_id_le(a, b) || time_then_id_le(b, a),
{
}

/// The query order on dated todos is transitive.
proof fn lemma_time_order_trans(a: TodoView, b: TodoView, c: TodoView)
    requires
        time_then_id_le(a, b),
        time_then_id_le(b, c),
    ensures
        time_then_id_le(a, c),
{
}

/// Query order, executably: ascending expiry, ties in ascending id order.
fn todo_le(a: &Todo, b: &Todo) -> (r: bool)
    ensures
        (a@.expire_time is Some && b@.expire_time is Some) ==> r == time_then_id_le(a@, b@),
{
    match (&a.expire_time, &b.expire_time) {
        (Some(ta), Some(tb)) => {
            if *ta == *tb {
                a.id <= b.id
            } else {
                ta.le(tb)
            }
        },
        _ => false,
    }
}

/// Inserts a dated todo into a result list kept in query order.
fn insert_by_time(r: &mut Vec<Todo>, item: Todo)
    requires
        ordered_by_time(old(r).deep_view()),
        item@.expire_time is Some,
        forall|k: int|
            0 <= k < old(r)@.len() ==> (#[trigger] old(r).deep_view()[k]).expire_time is Some,
    ensures
        final(r).deep_view().to_multiset() == old(r).deep_view().to_multiset().insert(item@),
        ordered_by_time(final(r).deep_view()),
        forall|k: int|
            0 <= k < final(r)@.len() ==> (#[trigger] final(r).deep_view()[k]).expire_time is Some,
{
    broadcast use group_to_multiset_ensures;

    let ghost pre = r.deep_view();
    let n = r.len();
    let mut pos: usize = 0;
    while pos < n && todo_le(&r[pos as usize], &item)
        invariant
            pos <= n,
            n == r.len(),
            *r == *old(r),
            pre == r.deep_view(),
            item@.expire_time is Some,
            forall|k: int| 0 <= k < n ==> (#[trigger] pre[k]).expire_time is Some,
            forall|k: int| 0 <= k < pos ==> time_then_id_le(#[trigger] pre[k], item@),
        decreases n - pos,
    {
        proof {
            assert(r.deep_view()[pos as int] == r@[pos as int]@);
            assert(pre[pos as int].expire_time is Some);
            assert(time_then_id_le(pre[pos as int], item@));
        }
        pos = pos + 1;
    }
    proof {
        if pos < n {
            assert(r.deep_view()[pos as int] == r@[pos as int]@);
            lemma_time_order_total(pre[pos as int], item@);
        }
    }
    r.insert(pos, item);
    proof {
        assert(r.deep_view() =~= pre.insert(pos as int, item@));
        assert forall|i: int, j: int|
            0 <= i < j < r.deep_view().len() implies time_then_id_le(
            #[trigger] r.deep_view()[i],
            #[trigger] r.deep_view()[j],
        ) by {
            let s = r.deep_view();
            let p = pos as int;
            if i < p && j == p {
            } else if i == p && j > p {
                if p < pre.len() {
                    lemma_time_order_trans(item@, pre[p], s[j]);
                }
            } else if i < p && j > p {
            } else {
            }
        }
    }
}

/// Linear scan: whether `ids` holds `id`.
fn contains_id(ids: &Vec<i32>, id: i32) -> (r: bool)
    ensures
        r == ids@.contains(id),
{
    let n = ids.len();
    for i in 0..n
        invariant
            n == ids.len(),
            forall|k: int| 0 <= k < i ==> ids@[k] != id,
    {
        if ids[i] == id {
            return true;
        }
    }
    false
}

/// A table can be restored from persistence when it satisfies the table
/// invariant and its ids leave room on the id counter.
pub open spec fn rows_restorable(rows: Seq<TodoView>) -> bool {
    &&& rows_wf(rows)
    &&& forall|i: int| 0 <= i < rows.len() ==> (#[trigger] rows[i]).id < i32::MAX
}

/// The todo store. It is the sole owner and writer of the table; callers get
/// fresh result lists from the queries and never patch them in place.
pub struct TodoStore {
    todos: Vec<Todo>,
    next_id: i32,
}

impl View for TodoStore {
    type V = Seq<TodoView>;

    closed spec fn view(&self) -> Seq<TodoView> {
        self.todos.deep_view()
    }
}

impl TodoStore {
    /// The id the next created todo will receive.
    pub closed spec fn next_id_spec(self) -> i32 {
        self.next_id
    }

    /// Store invariant: the table rows are well formed and every id already
    /// handed out lies below the creation counter.
    pub open spec fn wf(self) -> bool {
        &&& rows_wf(self@)
        &&& forall|i: int| 0 <= i < self@.len() ==> (#[trigger] self@[i]).id < self.next_id_spec()
        &&& 1 <= self.next_id_spec()
    }

    /// The id the next created todo will receive; creation needs room left
    /// on the counter.
    pub fn next_id(&self) -> (r: i32)
        ensures
            r == self.next_id_spec(),
    {
        self.next_id
    }

    /// An empty store; the first created todo will get id 1.
    pub fn new() -> (s: Self)
        ensures
            s.wf(),
            s@ == Seq::<TodoView>::empty(),
            s.next_id_spec() == 1,
    {
        let s = TodoStore { todos: Vec::new(), next_id: 1 };
        proof {
            assert(s@ =~= Seq::<TodoView>::empty());
        }
        s
    }

    /// Rebuilds a store around rows read back from the persisted table.
    /// Accepts exactly the tables this store could have written: ids
    /// strictly increasing in row order, at least 1 and with room left on
    /// the id counter, every timestamp naming a real calendar time. The
    /// counter resumes after the highest id, so later creations stay fresh.
    pub fn restore(todos: Vec<Todo>) -> (r: Option<TodoStore>)
        ensures
            r matches Some(s) ==> {
                &&& s.wf()
                &&& s@ == todos.deep_view()
                &&& todos@.len() == 0 ==> s.next_id_spec() == 1
                &&& todos@.len() > 0 ==> s.next_id_spec() == todos.deep_view().last().id + 1
            },
            r is None <==> !rows_restorable(todos.deep_view()),
    {
        let n = todos.len();
        let mut next: i32 = 1;
        for i in 0..n
            invariant
                n == todos.len(),
                1 <= next,
                i == 0 ==> next == 1,
                rows_restorable(todos.deep_view().subrange(0, i as int)),
                forall|k: int| 0 <= k < i ==> (#[trigger] todos.deep_view()[k]).id < next,
                i > 0 ==> next == todos.deep_view()[i - 1].id + 1,
        {
            let ghost rows = todos.deep_view();
            let todo = &todos[i];
            proof {
                assert(todo@ == rows[i as int]);
                assert(rows.subrange(0, i as int + 1) =~= rows.subrange(0, i as int).push(
                    rows[i as int],
                ));
            }
            if todo.id < next || todo.id == i32::MAX {
                proof {
                    if todo.id < next {
                        if i == 0 {
                            assert(!rows_restorable(rows)) by {
                                assert(rows[0].id < 1);
                            }
                        } else {
                            assert(!rows_restorable(rows)) by {
                                assert(rows[i - 1].id >= rows[i as int].id);
                            }
                        }
                    } else {
                        assert(!rows_restorable(rows)) by {
                            assert(rows[i as int].id >= i32::MAX);
                        }
                    }
                }
                return None;
            }
            let valid_time = match &todo.expire_time {
                Some(t) => t.is_valid(),
                None => true,
            };
            if !valid_time {
                proof {
                    assert(!rows_restorable(rows)) by {
                        assert(rows[i as int].expire_time matches Some(t) && !t.wf());
                    }
                }
                return None;
            }
            next = todo.id + 1;
        }
        proof {
            assert(todos.deep_view().subrange(0, n as int) =~= todos.deep_view());
        }
        let s = TodoStore { todos, next_id: next };
        Some(s)
    }

    /// Inserts a new todo. The store assigns the id: the current value of
    /// the creation counter, which then advances, so the id is fresh.
    pub fn create(&mut self, content: String, expire_time: Option<DateTime>)
        requires
            old(self).wf(),
            old(self).next_id_spec() < i32::MAX,
            expire_time matches Some(t) ==> t.wf(),
        ensures
            final(self).wf(),
            final(self)@ == old(self)@.push(
                TodoView { id: old(self).next_id_spec(), content: content@, expire_time },
            ),
            final(self).next_id_spec() == old(self).next_id_spec() + 1,
    {
        let ghost row = TodoView { id: self.next_id, content: content@, expire_time };
        let todo = Todo { id: self.next_id, content, expire_time };
        self.todos.push(todo);
        self.next_id = self.next_id + 1;
        proof {
            assert(self@ =~= old(self)@.push(row));
        }
    }

    /// Removes every todo whose id is in `ids`. Ids that match no row are
    /// ignored; deleting an empty set changes nothing.
    pub fn delete(&mut self, ids: &Vec<i32>)
        requires
            old(self).wf(),
        ensures
            final(self).wf(),
            final(self)@ == remaining_rows(old(self)@, ids@),
            final(self).next_id_spec() == old(self).next_id_spec(),
    {
        if ids.len() == 0 {
            proof {
                assert(forall|i: int|
                    0 <= i < self@.len() ==> !ids@.contains((#[trigger] self@[i]).id));
                lemma_remaining_rows_no_match(self@, ids@);
            }
            return ;
        }
        let mut kept: Vec<Todo> = Vec::new();
        let n = self.todos.len();
        for i in 0..n
            invariant
                *self == *old(self),
                n == self.todos.len(),
                kept.deep_view() == remaining_rows(self@.subrange(0, i as int), ids@),
        {
            let ghost prefix = self@.subrange(0, i as int);
            let todo = &self.todos[i];
            proof {
                assert(self@.subrange(0, i as int + 1) =~= prefix.push(self@[i as int]));
                assert(todo@ == self@[i as int]);
                lemma_remaining_rows_push(prefix, self@[i as int], ids@);
            }
            if !contains_id(ids, todo.id) {
                let item = todo.clone();
                kept.push(item);
                proof {
                    assert(kept.deep_view() =~= remaining_rows(prefix, ids@).push(
                        self@[i as int],
                    ));
                }
            }
        }
        proof {
            assert(self@.subrange(0, n as int) =~= self@);
        }
        self.todos = kept;
        proof {
            lemma_remaining_rows_wf(old(self)@, ids@);
            assert forall|i: int| 0 <= i < self@.len() implies (#[trigger] self@[i]).id
                < self.next_id_spec() by {
                let w = choose|w: int| 0 <= w < old(self)@.len() && old(self)@[w] == self@[i];
            }
        }
    }

    /// Overwrites content and expiry of the todo with the given id, keeping
    /// the id. If no todo has that id, nothing changes and that is not an
    /// error.
    pub fn update(&mut self, id: i32, content: String, expire_time: Option<DateTime>)
        requires
            old(self).wf(),
            expire_time matches Some(t) ==> t.wf(),
        ensures
            final(self).wf(),
            final(self)@ == updated_rows(old(self)@, id, content@, expire_time),
            final(self).next_id_spec() == old(self).next_id_spec(),
    {
        let pos = self.position_of_id(id);
        match pos {
            Some(i) => {
                let item = Todo { id, content, expire_time };
                self.todos.set(i, item);
                proof {
                    assert forall|k: int|
                        0 <= k < old(self)@.len() && k != i implies (#[trigger] old(
                        self,
                    )@[k]).id != id by {
                        assert(old(self)@[i as int].id == id);
                    }
                    assert(self@ =~= updated_rows(old(self)@, id, content@, expire_time));
                }
            },
            None => {
                proof {
                    assert(self@ =~= updated_rows(old(self)@, id, content@, expire_time));
                }
            },
        }
    }

    /// Returns the distinct day-of-month numbers (1..=31) of the given month
    /// that carry at least one dated todo, in ascending order. Only todos
    /// whose expiry lies in that very month and year count: a December todo
    /// of one year never marks January of the next.
    pub fn days_with_todos(&self, year: i32, month: u32) -> (r: Vec<u32>)
        requires
            self.wf(),
        ensures
            forall|d: u32|
                #[trigger] r@.contains(d) <==> some_row_on_day(
                    self@,
                    Date { year, month, day: d },
                ),
            forall|i: int, j: int| 0 <= i < j < r@.len() ==> r@[i] < r@[j],
            forall|i: int| 0 <= i < r@.len() ==> 1 <= #[trigger] r@[i] <= 31,
    {
        let mut r: Vec<u32> = Vec::new();
        let mut day: u32 = 1;
        while day <= 31
            invariant
                self.wf(),
                1 <= day <= 32,
                forall|d: u32|
                    #[trigger] r@.contains(d) <==> (1 <= d < day && some_row_on_day(
                        self@,
                        Date { year, month, day: d },
                    )),
                forall|i: int| 0 <= i < r@.len() ==> 1 <= #[trigger] r@[i] < day,
                forall|i: int, j: int| 0 <= i < j < r@.len() ==> r@[i] < r@[j],
            decreases 32 - day,
        {
            if self.any_dated_on(Date { year, month, day }) {
                let ghost before = r@;
                r.push(day);
                proof {
                    assert forall|d: u32|
                        #[trigger] r@.contains(d) <==> (before.contains(d) || d == day) by {
                        if before.contains(d) {
                            let w = choose|w: int| 0 <= w < before.len() && before[w] == d;
                            assert(r@[w] == d);
                        }
                        if d == day {
                            assert(r@[r@.len() - 1] == d);
                        }
                        if r@.contains(d) {
                            let w = choose|w: int| 0 <= w < r@.len() && r@[w] == d;
                            if w < before.len() {
                                assert(before[w] == d);
                            }
                        }
                    }
                }
            }
            day = day + 1;
        }
        proof {
            assert forall|d: u32|
                #[trigger] r@.contains(d) <==> some_row_on_day(
                    self@,
                    Date { year, month, day: d },
                ) by {
                if some_row_on_day(self@, Date { year, month, day: d }) {
                    let w = choose|w: int|
                        0 <= w < self@.len() && dated_on(
                            #[trigger] self@[w],
                            Date { year, month, day: d },
                        );
                    assert(self@[w].expire_time matches Some(t) ==> t.wf());
                }
            }
        }
        r
    }

    /// Whether some row is dated on the given day.
    fn any_dated_on(&self, d: Date) -> (b: bool)
        ensures
            b == some_row_on_day(self@, d),
    {
        let n = self.todos.len();
        for i in 0..n
            invariant
                n == self.todos.len(),
                forall|k: int| 0 <= k < i ==> !dated_on(#[trigger] self@[k], d),
        {
            let todo = &self.todos[i];
            proof {
                assert(todo@ == self@[i as int]);
            }
            let hit = match &todo.expire_time {
                Some(t) => t.date == d,
                None => false,
            };
            if hit {
                proof {
                    assert(dated_on(self@[i as int], d));
                }
                return true;
            }
        }
        false
    }

    /// Row index of the todo with the given id, if any.
    fn position_of_id(&self, id: i32) -> (r: Option<usize>)
        ensures
            r matches Some(i) ==> i < self@.len() && self@[i as int].id == id,
            r is None ==> forall|k: int| 0 <= k < self@.len() ==> (#[trigger] self@[k]).id != id,
    {
        let n = self.todos.len();
        for i in 0..n
            invariant
                n == self.todos.len(),
                forall|k: int| 0 <= k < i ==> (#[trigger] self@[k]).id != id,
        {
            if self.todos[i].id == id {
                return Some(i);
            }
            proof {
                assert(self@[i as int] == self.todos[i as int]@);
            }
        }
        None
    }

    /// Returns the todos of one calendar day: those whose expiry falls
    /// within the inclusive window `[date 00:00:00, date 23:59:59]`, in
    /// ascending expiry order (ties in creation order). Undated todos never
    /// appear here.
    pub fn find_by_date(&self, date: Date) -> (r: Vec<Todo>)
        requires
            self.wf(),
        ensures
            r.deep_view().to_multiset() == rows_on_day(self@, date).to_multiset(),
            ordered_by_time(r.deep_view()),
            ids_distinct(r.deep_view()),
            forall|k: int| 0 <= k < r@.len() ==> dated_on(#[trigger] r.deep_view()[k], date),
    {
        broadcast use group_to_multiset_ensures;
        broadcast use group_seq_lib_default;

        let time_start = day_start(date);
        let time_end = day_end(date);
        let mut r: Vec<Todo> = Vec::new();
        let n = self.todos.len();
        for i in 0..n
            invariant
                n == self.todos.len(),
                self.wf(),
                time_start == spec_day_start(date),
                time_end == spec_day_end(date),
                r.deep_view().to_multiset() == rows_on_day(
                    self@.subrange(0, i as int),
                    date,
                ).to_multiset(),
                ordered_by_time(r.deep_view()),
                forall|k: int|
                    0 <= k < r@.len() ==> (#[trigger] r.deep_view()[k]).expire_time is Some,
        {
            let ghost prefix = self@.subrange(0, i as int);
            let todo = &self.todos[i];
            proof {
                assert(self@.subrange(0, i as int + 1) =~= prefix.push(self@[i as int]));
                assert(todo@ == self@[i as int]);
                lemma_rows_on_day_push(prefix, self@[i as int], date);
            }
            let in_window = match &todo.expire_time {
                Some(t) => time_start.le(t) && t.le(&time_end),
                None => false,
            };
            proof {
                if let Some(t) = todo.expire_time {
                    assert(t.wf());
                    lemma_same_day_iff_within_bounds(t, date);
                }
                assert(in_window == dated_on(self@[i as int], date));
            }
            if in_window {
                let item = todo.clone();
                insert_by_time(&mut r, item);
                proof {
                    broadcast use group_to_multiset_ensures;

                    assert(rows_on_day(prefix, date).push(self@[i as int]).to_multiset()
                        =~= rows_on_day(prefix, date).to_multiset().insert(self@[i as int]));
                }
            }
        }
        proof {
            assert(self@.subrange(0, n as int) =~= self@);
            lemma_rows_on_day_wf(self@, date);
            lemma_permutation_ids_distinct(rows_on_day(self@, date), r.deep_view());
            assert forall|k: int| 0 <= k < r@.len() implies dated_on(
                #[trigger] r.deep_view()[k],
                date,
            ) by {
                assert(r.deep_view().to_multiset().count(r.deep_view()[k]) > 0);
                assert(rows_on_day(self@, date).contains(r.deep_view()[k]));
                let w = choose|w: int|
                    0 <= w < rows_on_day(self@, date).len() && rows_on_day(self@, date)[w]
                        == r.deep_view()[k];
            }
        }
        r
    }

    /// Returns the undated todos, in ascending id order (their creation
    /// order, which is the row order).
    pub fn find_undated(&self) -> (r: Vec<Todo>)
        ensures
            r.deep_view() == undated_rows(self@),
    {
        let mut r: Vec<Todo> = Vec::new();
        let n = self.todos.len();
        for i in 0..n
            invariant
                n == self.todos.len(),
                r.deep_view() == undated_rows(self@.subrange(0, i as int)),
        {
            let ghost prefix = self@.subrange(0, i as int);
            let todo = &self.todos[i];
            proof {
                assert(self@.subrange(0, i as int + 1) =~= prefix.push(self@[i as int]));
                assert(todo@ == self@[i as int]);
                lemma_undated_rows_push(prefix, self@[i as int]);
            }
            if todo.expire_time.is_none() {
                let item = todo.clone();
                r.push(item);
                proof {
                    assert(r.deep_view() =~= undated_rows(prefix).push(self@[i as int]));
                }
            }
        }
        proof {
            assert(self@.subrange(0, n as int) =~= self@);
        }
        r
    }
}

/// Law: a freshly created dated todo is returned by the day query for its
/// expiry date, under an id no existing todo carries. `found` stands for any
/// list meeting the contract of [`TodoStore::find_by_date`] on the store
/// after the creation, whose contract in turn pins the new row's placement.
pub proof fn lemma_create_then_find_by_date(
    pre: TodoStore,
    post: TodoStore,
    row: TodoView,
    t: DateTime,
    found: Seq<TodoView>,
)
    requires
        pre.wf(),
        row.id == pre.next_id_spec(),
        row.expire_time == Some(t),
        post@ == pre@.push(row),
        found.to_multiset() == rows_on_day(post@, t.date).to_multiset(),
    ensures
        found.contains(row),
        forall|i: int| 0 <= i < pre@.len() ==> (#[trigger] pre@[i]).id != row.id,
{
    broadcast use group_to_multiset_ensures;
    broadcast use vstd::multiset::group_multiset_axioms;

    lemma_rows_on_day_push(pre@, row, t.date);
    assert(rows_on_day(pre@, t.date).push(row).to_multiset() =~= rows_on_day(
        pre@,
        t.date,
    ).to_multiset().insert(row));
    assert(found.to_multiset().count(row) > 0);
}

/// Law: a freshly created undated todo is returned by the undated query —
/// as its last element, since that query keeps creation order — under an id
/// no existing todo carries.
pub proof fn lemma_create_then_find_undated(
    pre: TodoStore,
    post: TodoStore,
    row: TodoView,
    found: Seq<TodoView>,
)
    requires
        pre.wf(),
        row.id == pre.next_id_spec(),
        row.expire_time is None,
        post@ == pre@.push(row),
        found == undated_rows(post@),
    ensures
        found.len() >= 1,
        found.last() == row,
        found.contains(row),
        forall|i: int| 0 <= i < pre@.len() ==> (#[trigger] pre@[i]).id != row.id,
{
    lemma_undated_rows_push(pre@, row);
    assert(found[found.len() - 1] == row);
}

/// Law: a dated todo is found by the day query for its own expiry date and
/// by the query of no other day. In particular a todo stamped at the last
/// second of a day, `23:59:59`, still belongs to that day alone.
pub proof fn lemma_day_query_boundary(
    s: TodoStore,
    i: int,
    t: DateTime,
    other: Date,
    found_same: Seq<TodoView>,
    found_other: Seq<TodoView>,
)
    requires
        0 <= i < s@.len(),
        s@[i].expire_time == Some(t),
        other != t.date,
        found_same.to_multiset() == rows_on_day(s@, t.date).to_multiset(),
        found_other.to_multiset() == rows_on_day(s@, other).to_multiset(),
    ensures
        found_same.contains(s@[i]),
        !found_other.contains(s@[i]),
{
    broadcast use group_to_multiset_ensures;
    broadcast use vstd::multiset::group_multiset_axioms;
    broadcast use vstd::seq_lib::group_seq_lib_default;

    assert(rows_on_day(s@, t.date).contains(s@[i]));
    assert(found_same.to_multiset().count(s@[i]) > 0);
    if found_other.contains(s@[i]) {
        assert(rows_on_day(s@, other).to_multiset().count(s@[i]) > 0);
        assert(rows_on_day(s@, other).contains(s@[i]));
        let w = choose|w: int|
            0 <= w < rows_on_day(s@, other).len() && rows_on_day(s@, other)[w] == s@[i];
        assert(dated_on(rows_on_day(s@, other)[w], other));
        assert(false);
    }
}

/// Law: after deleting a set of ids, neither the day query nor the undated
/// query returns a todo whose id was deleted.
pub proof fn lemma_delete_then_queries(
    pre: TodoStore,
    post: TodoStore,
    ids: Seq<i32>,
    d: Date,
    by_day: Seq<TodoView>,
    undated: Seq<TodoView>,
)
    requires
        post@ == remaining_rows(pre@, ids),
        by_day.to_multiset() == rows_on_day(post@, d).to_multiset(),
        undated == undated_rows(post@),
    ensures
        forall|k: int| 0 <= k < by_day.len() ==> !ids.contains((#[trigger] by_day[k]).id),
        forall|k: int| 0 <= k < undated.len() ==> !ids.contains((#[trigger] undated[k]).id),
{
    broadcast use group_to_multiset_ensures;
    broadcast use vstd::multiset::group_multiset_axioms;
    broadcast use vstd::seq_lib::group_seq_lib_default;
    broadcast use Seq::lemma_filter_contains_rev;

    assert forall|k: int| 0 <= k < by_day.len() implies !ids.contains(
        (#[trigger] by_day[k]).id,
    ) by {
        assert(by_day.to_multiset().count(by_day[k]) > 0);
        assert(rows_on_day(post@, d).contains(by_day[k]));
        assert(post@.contains(by_day[k]));
        let v = choose|v: int| 0 <= v < post@.len() && post@[v] == by_day[k];
        assert(!ids.contains(remaining_rows(pre@, ids)[v].id));
    }
    assert forall|k: int| 0 <= k < undated.len() implies !ids.contains(
        (#[trigger] undated[k]).id,
    ) by {
        assert(undated_rows(post@).contains(undated[k]));
        assert(post@.contains(undated[k]));
        let v = choose|v: int| 0 <= v < post@.len() && post@[v] == undated[k];
        assert(!ids.contains(remaining_rows(pre@, ids)[v].id));
    }
}

/// Law: deleting an empty set of ids is a no-op on the table.
pub proof fn lemma_delete_empty(pre: TodoStore, post: TodoStore, ids: Seq<i32>)
    requires
        ids.len() == 0,
        post@ == remaining_rows(pre@, ids),
    ensures
        post@ == pre@,
{
    lemma_remaining_rows_no_match(pre@, ids);
}

/// Law: the day query's contract pins its result. Any two sequences holding
/// the same rows (as multisets), both in query order and without repeated
/// ids, are the same sequence — so two runs of
/// [`TodoStore::find_by_date`] with no intervening mutation return identical
/// ordered sequences.
pub proof fn lemma_day_query_pinned(a: Seq<TodoView>, b: Seq<TodoView>)
    requires
        a.to_multiset() == b.to_multiset(),
        ordered_by_time(a),
        ordered_by_time(b),
        ids_distinct(a),
    ensures
        a == b,
    decreases a.len(),
{
    broadcast use group_to_multiset_ensures;
    broadcast use vstd::multiset::group_multiset_axioms;

    assert(a.to_multiset().len() == a.len());
    assert(b.to_multiset().len() == b.len());
    if a.len() == 0 {
        assert(a =~= b);
    } else {
        assert(a.contains(a[0]) && b.contains(b[0]));
        assert(a.to_multiset().count(a[0]) > 0 && b.to_multiset().count(b[0]) > 0);
        assert(b.to_multiset().count(a[0]) > 0 && a.to_multiset().count(b[0]) > 0);
        assert(b.contains(a[0]) && a.contains(b[0]));
        let k = choose|k: int| 0 <= k < a.len() && a[k] == b[0];
        let m = choose|m: int| 0 <= m < b.len() && b[m] == a[0];
        assert(time_then_id_le(a[0], b[0]));
        assert(time_then_id_le(b[0], a[0]));
        assert(a[0].id == b[0].id);
        assert(k == 0);
        assert(a[0] == b[0]);
        assert(a.drop_first() =~= a.remove(0));
        assert(b.drop_first() =~= b.remove(0));
        assert(a.remove(0).to_multiset() =~= a.to_multiset().remove(a[0]));
        assert(b.remove(0).to_multiset() =~= b.to_multiset().remove(b[0]));
        assert(ids_distinct(a.drop_first()));
        assert(ordered_by_time(a.drop_first()));
        assert(ordered_by_time(b.drop_first()));
        lemma_day_query_pinned(a.drop_first(), b.drop_first());
        assert forall|i: int| 0 <= i < a.len() implies a[i] == b[i] by {
            if i > 0 {
                assert(a.drop_first()[i - 1] == a[i]);
                assert(b.drop_first()[i - 1] == b[i]);
            }
        }
        assert(a =~= b);
    }
}

/// Law: the undated query is deterministic in the store — two runs with no
/// intervening mutation return identical ordered sequences, since the
/// contract of [`TodoStore::find_undated`] pins the result exactly.
pub proof fn lemma_find_undated_idempotent(
    s: TodoStore,
    first: Seq<TodoView>,
    second: Seq<TodoView>,
)
    requires
        first == undated_rows(s@),
        second == undated_rows(s@),
    ensures
        first == second,
{
}

} // verus!
