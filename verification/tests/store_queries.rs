//! Behaviour of the todo store's queries and mutations on concrete data.

use reminder::date_time::{Date, DateTime};
use reminder::store::TodoStore;
use reminder::todo::Todo;

fn date(year: i32, month: u32, day: u32) -> Date {
    Date { year, month, day }
}

fn dt(year: i32, month: u32, day: u32, hour: u32, minute: u32, second: u32) -> DateTime {
    DateTime {
        date: date(year, month, day),
        hour,
        minute,
        second,
    }
}

#[test]
fn create_then_find_by_date_returns_the_record() {
    let mut s = TodoStore::new();
    let t = dt(2024, 3, 15, 10, 30, 0);
    s.create(String::from("call the dentist"), Some(t));
    let found = s.find_by_date(date(2024, 3, 15));
    assert_eq!(found.len(), 1);
    assert_eq!(found[0].id, 1);
    assert_eq!(found[0].content, "call the dentist");
    assert_eq!(found[0].expire_time, Some(t));
}

#[test]
fn create_then_find_undated_returns_the_record() {
    let mut s = TodoStore::new();
    s.create(String::from("someday"), None);
    let found = s.find_undated();
    assert_eq!(found.len(), 1);
    assert_eq!(found[0].id, 1);
    assert_eq!(found[0].content, "someday");
    assert_eq!(found[0].expire_time, None);
}

#[test]
fn ids_are_fresh_and_ascending() {
    let mut s = TodoStore::new();
    s.create(String::from("a"), None);
    s.create(String::from("b"), None);
    s.create(String::from("c"), None);
    let found = s.find_undated();
    let ids: Vec<i32> = found.iter().map(|t| t.id).collect();
    assert_eq!(ids, vec![1, 2, 3]);
}

#[test]
fn last_second_of_a_day_belongs_to_that_day_only() {
    let mut s = TodoStore::new();
    s.create(String::from("deadline"), Some(dt(2024, 3, 15, 23, 59, 59)));
    let on_day = s.find_by_date(date(2024, 3, 15));
    assert_eq!(on_day.len(), 1);
    assert_eq!(on_day[0].content, "deadline");
    let next_day = s.find_by_date(date(2024, 3, 16));
    assert!(next_day.is_empty());
}

#[test]
fn delete_removes_ids_from_every_query() {
    let mut s = TodoStore::new();
    let t = dt(2024, 5, 2, 8, 0, 0);
    s.create(String::from("dated, stays"), Some(t));
    s.create(String::from("dated, goes"), Some(t));
    s.create(String::from("undated, goes"), None);
    s.delete(&vec![2, 3]);
    let on_day = s.find_by_date(date(2024, 5, 2));
    assert_eq!(on_day.len(), 1);
    assert!(on_day.iter().all(|x| x.id != 2 && x.id != 3));
    assert!(s.find_undated().is_empty());
}

#[test]
fn delete_of_empty_set_is_a_noop() {
    let mut s = TodoStore::new();
    s.create(String::from("a"), None);
    s.create(String::from("b"), Some(dt(2024, 1, 1, 0, 0, 0)));
    let undated_before = s.find_undated();
    let dated_before = s.find_by_date(date(2024, 1, 1));
    s.delete(&vec![]);
    assert_eq!(s.find_undated(), undated_before);
    assert_eq!(s.find_by_date(date(2024, 1, 1)), dated_before);
}

#[test]
fn delete_of_unknown_id_is_a_noop() {
    let mut s = TodoStore::new();
    s.create(String::from("a"), None);
    s.delete(&vec![7, 42]);
    assert_eq!(s.find_undated().len(), 1);
}

#[test]
fn days_with_todos_collapses_duplicates() {
    let mut s = TodoStore::new();
    s.create(String::from("one"), Some(dt(2024, 2, 1, 9, 0, 0)));
    s.create(String::from("two"), Some(dt(2024, 2, 1, 17, 0, 0)));
    s.create(String::from("leap"), Some(dt(2024, 2, 29, 12, 0, 0)));
    assert_eq!(s.days_with_todos(2024, 2), vec![1, 29]);
}

#[test]
fn days_with_todos_respects_month_rollover() {
    let mut s = TodoStore::new();
    s.create(String::from("advent"), Some(dt(2024, 12, 5, 10, 0, 0)));
    s.create(String::from("silvester"), Some(dt(2024, 12, 31, 23, 0, 0)));
    s.create(String::from("new year"), Some(dt(2025, 1, 1, 0, 0, 0)));
    assert_eq!(s.days_with_todos(2024, 12), vec![5, 31]);
    assert_eq!(s.days_with_todos(2025, 1), vec![1]);
}

#[test]
fn days_with_todos_ignores_undated_and_other_years() {
    let mut s = TodoStore::new();
    s.create(String::from("undated"), None);
    s.create(String::from("other year"), Some(dt(2023, 7, 4, 12, 0, 0)));
    assert_eq!(s.days_with_todos(2024, 7), Vec::<u32>::new());
}

#[test]
fn find_undated_is_idempotent() {
    let mut s = TodoStore::new();
    s.create(String::from("x"), None);
    s.create(String::from("y"), Some(dt(2024, 6, 6, 6, 6, 6)));
    s.create(String::from("z"), None);
    let first = s.find_undated();
    let second = s.find_undated();
    assert_eq!(first, second);
}

#[test]
fn find_by_date_is_idempotent() {
    let mut s = TodoStore::new();
    let d = date(2024, 4, 10);
    s.create(String::from("b"), Some(dt(2024, 4, 10, 12, 0, 0)));
    s.create(String::from("a"), Some(dt(2024, 4, 10, 8, 0, 0)));
    let first = s.find_by_date(d);
    let second = s.find_by_date(d);
    assert_eq!(first, second);
}

#[test]
fn scenario_buy_milk_pay_rent() {
    let mut s = TodoStore::new();
    s.create(String::from("Buy milk"), None);
    let rent_time = dt(2024, 3, 1, 9, 0, 0);
    s.create(String::from("Pay rent"), Some(rent_time));

    let undated = s.find_undated();
    assert_eq!(undated.len(), 1);
    assert_eq!(undated[0].content, "Buy milk");
    assert_eq!(undated[0].expire_time, None);

    let on_day = s.find_by_date(date(2024, 3, 1));
    assert_eq!(on_day.len(), 1);
    assert_eq!(on_day[0].content, "Pay rent");
    assert_eq!(on_day[0].expire_time, Some(rent_time));
}

#[test]
fn find_by_date_orders_by_expiry_then_id() {
    let mut s = TodoStore::new();
    let d = date(2024, 4, 10);
    s.create(String::from("noon"), Some(dt(2024, 4, 10, 12, 0, 0)));
    s.create(String::from("morning"), Some(dt(2024, 4, 10, 8, 15, 0)));
    s.create(String::from("also noon"), Some(dt(2024, 4, 10, 12, 0, 0)));
    s.create(String::from("evening"), Some(dt(2024, 4, 10, 20, 0, 0)));
    let found = s.find_by_date(d);
    let contents: Vec<&str> = found.iter().map(|t| t.content.as_str()).collect();
    assert_eq!(contents, vec!["morning", "noon", "also noon", "evening"]);
    assert_eq!(found[1].id, 1);
    assert_eq!(found[2].id, 3);
}

#[test]
fn find_by_date_excludes_undated_and_other_days() {
    let mut s = TodoStore::new();
    s.create(String::from("undated"), None);
    s.create(String::from("elsewhere"), Some(dt(2024, 4, 11, 9, 0, 0)));
    assert!(s.find_by_date(date(2024, 4, 10)).is_empty());
}

#[test]
fn update_overwrites_content_and_expiry() {
    let mut s = TodoStore::new();
    s.create(String::from("draft"), None);
    s.create(String::from("other"), None);
    let t = dt(2024, 8, 1, 9, 30, 0);
    s.update(1, String::from("final text"), Some(t));
    let on_day = s.find_by_date(date(2024, 8, 1));
    assert_eq!(on_day.len(), 1);
    assert_eq!(on_day[0].id, 1);
    assert_eq!(on_day[0].content, "final text");
    let undated = s.find_undated();
    assert_eq!(undated.len(), 1);
    assert_eq!(undated[0].content, "other");
}

#[test]
fn update_of_unknown_id_is_a_noop() {
    let mut s = TodoStore::new();
    s.create(String::from("keep me"), None);
    s.update(9, String::from("ghost"), None);
    let undated = s.find_undated();
    assert_eq!(undated.len(), 1);
    assert_eq!(undated[0].content, "keep me");
}

#[test]
fn empty_store_returns_empty_results() {
    let s = TodoStore::new();
    assert!(s.find_undated().is_empty());
    assert!(s.find_by_date(date(2024, 1, 1)).is_empty());
    assert!(s.days_with_todos(2024, 1).is_empty());
}

#[test]
fn restore_accepts_a_written_table_and_continues_ids() {
    let rows = vec![
        Todo {
            id: 2,
            content: String::from("a"),
            expire_time: None,
        },
        Todo {
            id: 5,
            content: String::from("b"),
            expire_time: Some(dt(2024, 2, 29, 8, 0, 0)),
        },
    ];
    let mut s = TodoStore::restore(rows).expect("a well-formed table restores");
    assert_eq!(s.find_undated().len(), 1);
    assert_eq!(s.find_by_date(date(2024, 2, 29)).len(), 1);
    s.create(String::from("c"), None);
    let undated = s.find_undated();
    assert_eq!(undated.last().map(|t| t.id), Some(6));
}

#[test]
fn restore_rejects_broken_tables() {
    let unsorted = vec![
        Todo {
            id: 5,
            content: String::from("a"),
            expire_time: None,
        },
        Todo {
            id: 2,
            content: String::from("b"),
            expire_time: None,
        },
    ];
    assert!(TodoStore::restore(unsorted).is_none());

    let bad_id = vec![Todo {
        id: 0,
        content: String::from("a"),
        expire_time: None,
    }];
    assert!(TodoStore::restore(bad_id).is_none());

    let bad_date = vec![Todo {
        id: 1,
        content: String::from("a"),
        expire_time: Some(dt(2023, 2, 29, 0, 0, 0)),
    }];
    assert!(TodoStore::restore(bad_date).is_none());

    assert!(TodoStore::restore(Vec::new()).is_some());
}
