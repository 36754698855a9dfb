//! What each view shows, as text.
//!
//! Nothing here draws: these functions say which words stand in the header,
//! in the footer and on each line, and where a day stands in the month's
//! grid. Sizes and positions on a display are the caller's business.

use crate::app::{first_with_id, task_open, AppState, DeleteTarget, PlannerApp, PlannerView};
use crate::form::EventField;
use crate::planner::{month_label, time_label, weekday_label, Date, Event, EventView, Task,
    TaskView};
use crate::sorting::views;
use crate::text::{decimal, push_char, push_decimal, push_text, push_zero_padded, zero_padded};
use vstd::prelude::*;

verus! {

/// The note on open tasks in the day view's header: nothing where no task
/// is open.
pub open spec fn open_tasks_note(open: nat) -> Seq<char> {
    if open > 0 {
        "["@ + decimal(open) + " tasks]"@
    } else {
        Seq::empty()
    }
}

/// The header of the view on screen.
pub open spec fn header_text(a: PlannerView) -> Seq<char> {
    match a.state {
        AppState::DayView => weekday_label(a.current_date.spec_day_of_week()) + " "@
            + a.current_date.spec_display() + "   "@ + open_tasks_note(
            a.tasks.filter(task_open()).len(),
        ),
        AppState::TaskList => "Tasks ("@ + decimal(a.tasks.filter(task_open()).len()) + "/"@
            + decimal(a.tasks.len()) + ")"@,
        AppState::AddEvent => "Add Event \u{2014} "@ + a.current_date.spec_display(),
        AppState::EditEvent => "Edit Event \u{2014} "@ + a.current_date.spec_display(),
        AppState::AddTask => "Add Task"@,
        AppState::ConfirmDel => "Confirm Delete"@,
        AppState::MonthView => month_label(a.month_view_month as int) + " "@ + decimal(
            a.month_view_year as nat,
        ) + " \u{2014} [/] Month"@,
    }
}

/// The footer of a view: the keys that it takes.
pub open spec fn footer_text(state: AppState) -> Seq<char> {
    match state {
        AppState::DayView => "<>/> Day  A)dd  E)dit  D)el  T)asks  M)onth  Menu=Quit"@,
        AppState::TaskList => "Enter=Toggle  A)dd  P)riority  D)el  <=Back"@,
        AppState::AddEvent => "Up/Down=Field  Enter=Save  Menu=Cancel"@,
        AppState::EditEvent => "Up/Down=Field  Enter=Save  Menu=Cancel"@,
        AppState::AddTask => "Enter=Save  Menu=Cancel"@,
        AppState::ConfirmDel => "Y)es  Any=Cancel"@,
        AppState::MonthView => "Arrows=Navigate  [/]=Month  Enter=Select"@,
    }
}

/// An event's line in the agenda: its priority marker, its time and its
/// title.
pub open spec fn event_line_text(event: EventView) -> Seq<char> {
    event.priority.spec_marker() + " "@ + time_label(event.time) + " "@ + event.title
}

/// A task's line in the task list: a box that is checked when the task is
/// done, its priority marker and its title.
pub open spec fn task_line_text(task: TaskView) -> Seq<char> {
    (if task.done {
        "[x]"@
    } else {
        "[ ]"@
    }) + " "@ + task.priority.spec_marker() + " "@ + task.title
}

/// A text under edit as its field shows it: with an underscore behind it
/// while the field is active.
pub open spec fn input_text(text: Seq<char>, active: bool) -> Seq<char> {
    if active {
        text + "_"@
    } else {
        text
    }
}

/// The form's time line.
pub open spec fn time_field_text(a: PlannerView) -> Seq<char> {
    if a.form.has_time {
        "Time: "@ + decimal(a.form.hour as nat) + ":"@ + zero_padded(a.form.minute as nat, 2)
            + "  (Space=all-day)"@
    } else {
        "Time: All day  (Space=set time)"@
    }
}

/// The form's minute line.
pub open spec fn minute_field_text(a: PlannerView) -> Seq<char> {
    "Minute: "@ + zero_padded(a.form.minute as nat, 2) + "  (</>  +/- 5)"@
}

/// The form's priority line.
pub open spec fn priority_field_text(a: PlannerView) -> Seq<char> {
    "Priority: "@ + a.form.priority.spec_label() + "  (</>  cycle)"@
}

/// Title of the first event that carries `id`, or a question mark.
pub open spec fn event_name(events: Seq<EventView>, id: u32) -> Seq<char> {
    match first_with_id(events, id) {
        Some(i) => events[i].title,
        None => "?"@,
    }
}

/// Title of the first task that carries `id`, or a question mark.
pub open spec fn task_name(tasks: Seq<TaskView>, id: u32) -> Seq<char> {
    match tasks.map_values(|t: TaskView| t.id).index_of_first(id) {
        Some(i) => tasks[i].title,
        None => "?"@,
    }
}

/// The question that the delete confirmation asks.
pub open spec fn confirm_text(a: PlannerView) -> Seq<char> {
    match a.delete_target {
        Some(DeleteTarget::Event(id)) => "Delete event '"@ + event_name(a.events, id) + "'?"@,
        Some(DeleteTarget::Task(id)) => "Delete task '"@ + task_name(a.tasks, id) + "'?"@,
        None => "Nothing selected"@,
    }
}

/// Place of a day in the month's grid, counted from the first of the month:
/// the first stands in the column of its weekday, Sunday in column 0, and
/// each row holds seven days.
pub open spec fn grid_place(year: u16, month: u8, day: u8) -> int {
    (Date { year, month, day: 1 }).spec_day_of_week() + day - 1
}

/// The footer of a view: the keys that it takes.
pub fn footer(state: AppState) -> (text: &'static str)
    ensures
        text@ == footer_text(state),
{
    match state {
        AppState::DayView => "<>/> Day  A)dd  E)dit  D)el  T)asks  M)onth  Menu=Quit",
        AppState::TaskList => "Enter=Toggle  A)dd  P)riority  D)el  <=Back",
        AppState::AddEvent => "Up/Down=Field  Enter=Save  Menu=Cancel",
        AppState::EditEvent => "Up/Down=Field  Enter=Save  Menu=Cancel",
        AppState::AddTask => "Enter=Save  Menu=Cancel",
        AppState::ConfirmDel => "Y)es  Any=Cancel",
        AppState::MonthView => "Arrows=Navigate  [/]=Month  Enter=Select",
    }
}

/// An event's line in the agenda.
pub fn event_line(event: &Event) -> (text: String)
    ensures
        text@ == event_line_text(event@),
{
    let mut text = String::new();
    push_text(&mut text, event.priority.marker());
    push_char(&mut text, ' ');
    let time = event.time_display();
    push_text(&mut text, time.as_str());
    push_char(&mut text, ' ');
    push_text(&mut text, event.title.as_str());
    proof {
        reveal_strlit(" ");
        assert(" "@ =~= seq![' ']);
    }
    text
}

/// A task's line in the task list.
pub fn task_line(task: &Task) -> (text: String)
    ensures
        text@ == task_line_text(task@),
{
    let mut text = String::new();
    if task.done {
        push_text(&mut text, "[x]");
    } else {
        push_text(&mut text, "[ ]");
    }
    push_char(&mut text, ' ');
    push_text(&mut text, task.priority.marker());
    push_char(&mut text, ' ');
    push_text(&mut text, task.title.as_str());
    proof {
        reveal_strlit(" ");
        assert(" "@ =~= seq![' ']);
    }
    text
}

/// Row and column of a day in the month's grid: the first of the month
/// stands in row 0, in the column of its weekday, and each row holds seven
/// days.
pub fn month_cell(year: u16, month: u8, day: u8) -> (cell: (u8, u8))
    requires
        1 <= month <= 12,
        1 <= day,
    ensures
        cell.0 == grid_place(year, month, day) / 7,
        cell.1 == grid_place(year, month, day) % 7,
{
    let first = Date::new(year, month, 1);
    let place: u16 = first.day_of_week() as u16 + day as u16 - 1;
    ((place / 7) as u8, (place % 7) as u8)
}

impl PlannerApp {
    /// The header of the view on screen.
    pub fn header(&self) -> (text: String)
        requires
            self.state == AppState::DayView ==> 1 <= self.current_date.month <= 12,
        ensures
            text@ == header_text(self@),
    {
        let mut text = String::new();
        match self.state {
            AppState::DayView => {
                push_text(&mut text, self.current_date.weekday_name());
                push_text(&mut text, " ");
                let date = self.current_date.display();
                push_text(&mut text, date.as_str());
                push_text(&mut text, "   ");
                let open = self.pending_task_count();
                if open > 0 {
                    push_text(&mut text, "[");
                    push_decimal(&mut text, open as u64);
                    push_text(&mut text, " tasks]");
                }
            },
            AppState::TaskList => {
                push_text(&mut text, "Tasks (");
                push_decimal(&mut text, self.pending_task_count() as u64);
                push_text(&mut text, "/");
                push_decimal(&mut text, self.tasks.len() as u64);
                push_text(&mut text, ")");
            },
            AppState::AddEvent => {
                push_text(&mut text, "Add Event \u{2014} ");
                let date = self.current_date.display();
                push_text(&mut text, date.as_str());
            },
            AppState::EditEvent => {
                push_text(&mut text, "Edit Event \u{2014} ");
                let date = self.current_date.display();
                push_text(&mut text, date.as_str());
            },
            AppState::AddTask => {
                push_text(&mut text, "Add Task");
            },
            AppState::ConfirmDel => {
                push_text(&mut text, "Confirm Delete");
            },
            AppState::MonthView => {
                push_text(&mut text, Date::month_name(self.month_view_month));
                push_text(&mut text, " ");
                push_decimal(&mut text, self.month_view_year as u64);
                push_text(&mut text, " \u{2014} [/] Month");
            },
        }
        text
    }

    /// The form's title as its field shows it.
    pub fn title_field(&self) -> (text: String)
        ensures
            text@ == input_text(self@.form.title, self.form_field == EventField::Title),
    {
        let mut text = self.form_title.clone();
        if self.form_field == EventField::Title {
            push_text(&mut text, "_");
        }
        text
    }

    /// The form's time line.
    pub fn time_field(&self) -> (text: String)
        ensures
            text@ == time_field_text(self@),
    {
        let mut text = String::new();
        if self.form_has_time {
            push_text(&mut text, "Time: ");
            push_decimal(&mut text, self.form_hour as u64);
            push_text(&mut text, ":");
            push_zero_padded(&mut text, self.form_minute as u64, 2);
            push_text(&mut text, "  (Space=all-day)");
        } else {
            push_text(&mut text, "Time: All day  (Space=set time)");
        }
        text
    }

    /// The form's minute line.
    pub fn minute_field(&self) -> (text: String)
        ensures
            text@ == minute_field_text(self@),
    {
        let mut text = String::new();
        push_text(&mut text, "Minute: ");
        push_zero_padded(&mut text, self.form_minute as u64, 2);
        push_text(&mut text, "  (</>  +/- 5)");
        text
    }

    /// The form's priority line.
    pub fn priority_field(&self) -> (text: String)
        ensures
            text@ == priority_field_text(self@),
    {
        let mut text = String::new();
        push_text(&mut text, "Priority: ");
        push_text(&mut text, self.form_priority.label());
        push_text(&mut text, "  (</>  cycle)");
        text
    }

    /// The task title under edit as its field shows it.
    pub fn task_input_field(&self) -> (text: String)
        ensures
            text@ == input_text(self@.task_input, true),
    {
        let mut text = self.task_input.clone();
        push_text(&mut text, "_");
        text
    }

    /// The question that the delete confirmation asks.
    pub fn confirm_message(&self) -> (text: String)
        ensures
            text@ == confirm_text(self@),
    {
        let mut text = String::new();
        match self.delete_target {
            Some(DeleteTarget::Event(id)) => {
                push_text(&mut text, "Delete event '");
                let ghost ids = self@.events.map_values(|e: EventView| e.id);
                let mut at: usize = 0;
                while at < self.events.len() && self.events[at].id != id
                    invariant
                        at <= self.events.len(),
                        ids == self@.events.map_values(|e: EventView| e.id),
                        forall|j: int| 0 <= j < at ==> #[trigger] ids[j] != id,
                    decreases self.events.len() - at,
                {
                    at += 1;
                }
                proof {
                    ids.index_of_first_ensures(id);
                    if at < self.events.len() {
                        assert(ids[at as int] == id);
                        assert(ids.contains(id));
                    } else {
                        assert(!ids.contains(id));
                    }
                }
                if at < self.events.len() {
                    push_text(&mut text, self.events[at].title.as_str());
                } else {
                    push_text(&mut text, "?");
                }
                push_text(&mut text, "'?");
            },
            Some(DeleteTarget::Task(id)) => {
                push_text(&mut text, "Delete task '");
                let ghost ids = self@.tasks.map_values(|t: TaskView| t.id);
                let mut at: usize = 0;
                while at < self.tasks.len() && self.tasks[at].id != id
                    invariant
                        at <= self.tasks.len(),
                        ids == self@.tasks.map_values(|t: TaskView| t.id),
                        forall|j: int| 0 <= j < at ==> #[trigger] ids[j] != id,
                    decreases self.tasks.len() - at,
                {
                    at += 1;
                }
                proof {
                    ids.index_of_first_ensures(id);
                    if at < self.tasks.len() {
                        assert(ids[at as int] == id);
                        assert(ids.contains(id));
                    } else {
                        assert(!ids.contains(id));
                    }
                }
                if at < self.tasks.len() {
                    push_text(&mut text, self.tasks[at].title.as_str());
                } else {
                    push_text(&mut text, "?");
                }
                push_text(&mut text, "'?");
            },
            None => {
                push_text(&mut text, "Nothing selected");
            },
        }
        text
    }
}

} // verus!
