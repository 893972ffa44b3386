//! The persisted entity: a todo item.

use vstd::prelude::*;

use crate::date_time::DateTime;

verus! {

/// One row of the todo table. `id` is assigned by the store on creation and
/// never reused or mutated afterwards; `expire_time` is `None` for an
/// undated todo, which appears only in the undated list.
#[derive(Debug, PartialEq, Eq)]
pub struct Todo {
    pub id: i32,
    pub content: String,
    pub expire_time: Option<DateTime>,
}

/// Mathematical image of a [`Todo`]: the same fields with the content as a
/// sequence of characters.
pub ghost struct TodoView {
    pub id: i32,
    pub content: Seq<char>,
    pub expire_time: Option<DateTime>,
}

impl View for Todo {
    type V = TodoView;

    open spec fn view(&self) -> TodoView {
        TodoView { id: self.id, content: self.content@, expire_time: self.expire_time }
    }
}

impl DeepView for Todo {
    type V = TodoView;

    open spec fn deep_view(&self) -> TodoView {
        self.view()
    }
}

impl Clone for Todo {
    fn clone(&self) -> (r: Self)
        ensures
            r == *self,
    {
        Todo { id: self.id, content: self.content.clone(), expire_time: self.expire_time }
    }
}

impl Todo {
    /// Every timestamp a todo carries must name an existing calendar day and
    /// a time of day within it.
    pub open spec fn wf(self) -> bool {
        self@.expire_time matches Some(t) ==> t.wf()
    }
}

} // verus!
