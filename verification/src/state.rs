//! View-selection state.
//!
//! The application shows either the undated list (no date selected) or one
//! day's list. User input drives three transitions: picking a calendar day,
//! resetting the selection, and jumping to today — which toggles back to the
//! undated view when today is already selected. Every transition, and every
//! store mutation, is followed by re-running the query that matches the
//! selection; the selection itself never changes on a mutation.

use vstd::prelude::*;

use crate::date_time::Date;

verus! {

/// What the "jump to today" request asks the surrounding shell to do.
#[derive(Clone, Copy, PartialEq, Eq, Structural, Debug)]
pub enum TodayAction {
    /// Today was already selected: the selection toggled back to the
    /// undated view, so re-render from the undated query.
    ClearSelection,
    /// Move the calendar focus to today; picking that day then feeds back
    /// through [`AppState::select_day`].
    FocusToday,
}

/// In-memory selection state: `None` shows the undated list, `Some(date)`
/// the list of that day.
pub struct AppState {
    current_date: Option<Date>,
}

impl AppState {
    /// The selected date; `None` means the undated view is active.
    pub closed spec fn selected(self) -> Option<Date> {
        self.current_date
    }

    /// Any selected date names an existing calendar day.
    pub open spec fn wf(self) -> bool {
        self.selected() matches Some(d) ==> d.wf()
    }

    /// The application starts in the undated view.
    pub fn new() -> (s: Self)
        ensures
            s.wf(),
            s.selected() is None,
    {
        AppState { current_date: None }
    }

    /// The user picked a day on the calendar: switch to that day's view.
    pub fn select_day(&mut self, date: Date)
        requires
            date.wf(),
        ensures
            final(self).wf(),
            final(self).selected() == Some(date),
    {
        self.current_date = Some(date);
    }

    /// The user reset the selection: back to the undated view.
    pub fn reset_date(&mut self)
        ensures
            final(self).wf(),
            final(self).selected() is None,
    {
        self.current_date = None;
    }

    /// The user asked to jump to today. If today's day view is already
    /// active this toggles back to the undated view; otherwise the selection
    /// stays and the shell is asked to move the calendar focus to today,
    /// whose day-picked event then routes through [`AppState::select_day`].
    pub fn jump_to_today(&mut self, today: Date) -> (a: TodayAction)
        requires
            old(self).wf(),
            today.wf(),
        ensures
            final(self).wf(),
            old(self).selected() == Some(today) ==> a == TodayAction::ClearSelection
                && final(self).selected() is None,
            old(self).selected() != Some(today) ==> a == TodayAction::FocusToday
                && *final(self) == *old(self),
    {
        match self.current_date {
            Some(d) => {
                if d == today {
                    self.current_date = None;
                    TodayAction::ClearSelection
                } else {
                    TodayAction::FocusToday
                }
            },
            None => TodayAction::FocusToday,
        }
    }

    /// Whether a day view is active, in which case the calendar overlay of
    /// marked days must also be refreshed.
    pub fn is_day_view(&self) -> (b: bool)
        ensures
            b == (self.selected() is Some),
    {
        self.current_date.is_some()
    }

    /// The selected date, for issuing the matching query.
    pub fn current_date(&self) -> (d: Option<Date>)
        ensures
            d == self.selected(),
    {
        self.current_date
    }
}

} // verus!
