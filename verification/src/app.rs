//! The planner's state machine: seven views, and what each key does in each.
//!
//! Every key goes to [`PlannerApp::handle_key`]. What it does is written
//! down once, as a function on the planner's view ([`PlannerView::step`]),
//! and the executable handlers are proved to follow it.

use crate::calendar::month_length;
use crate::form::{EventField, FormSignal, FormView, EVENT_TITLE_MAX};
use crate::invariants::{lemma_initial_well_formed, lemma_step_keeps_well_formed};
use crate::keys::{is_letter, is_printable, printable, KEY_BACKSPACE, KEY_DOWN, KEY_ENTER, KEY_LEFT,
    KEY_MENU, KEY_RIGHT, KEY_UP};
use crate::planner::{agenda_order, agenda_rank, id_differs, remove_with_id, sort_tasks, sorted_events,
    sorted_tasks, Date, Event, EventView, Priority, Task, TaskView, Time};
use crate::planner::{lemma_sorted_events_order, lemma_sorted_events_same_events};
use crate::storage::FIRST_ID;
use crate::sorting::{lemma_filter_members, lemma_stable_sort_members, lemma_stable_sort_ordered,
    rank_fn, settle, views};
use crate::text::{pop_char, push_char};
use vstd::prelude::*;

verus! {

/// Longest title a task can be given, in characters.
pub const TASK_TITLE_MAX: usize = 50;

/// The view that is on screen.
#[derive(Debug, Clone, Copy, PartialEq, Eq, Structural)]
pub enum AppState {
    DayView,
    TaskList,
    AddEvent,
    EditEvent,
    AddTask,
    ConfirmDel,
    MonthView,
}

/// What we're about to delete.
#[derive(Debug, Clone, Copy, PartialEq, Eq, Structural)]
pub enum DeleteTarget {
    Event(u32),
    Task(u32),
}

/// The condition that an event falls on `date`.
pub open spec fn on_date(date: Date) -> spec_fn(EventView) -> bool {
    |e: EventView| e.date == date
}

/// The condition that an event's id is not `id`.
pub open spec fn event_kept(id: u32) -> spec_fn(EventView) -> bool {
    |e: EventView| e.id != id
}

/// The condition that a task's id is not `id`.
pub open spec fn task_kept(id: u32) -> spec_fn(TaskView) -> bool {
    |t: TaskView| t.id != id
}

/// The condition that a task is still open.
pub open spec fn task_open() -> spec_fn(TaskView) -> bool {
    |t: TaskView| !t.done
}

/// The agenda of a date: its events, all-day events first, then events with
/// a time by minute of the day.
pub open spec fn agenda_for(events: Seq<EventView>, date: Date) -> Seq<EventView> {
    sorted_events(events.filter(on_date(date)))
}

/// Index of the first event with the given id.
pub open spec fn first_with_id(events: Seq<EventView>, id: u32) -> Option<int> {
    events.map_values(|e: EventView| e.id).index_of_first(id)
}

/// The planner's whole state, with every text as a sequence of characters.
pub struct PlannerView {
    pub state: AppState,
    pub needs_redraw: bool,
    pub needs_save: bool,
    pub current_date: Date,
    pub events: Seq<EventView>,
    pub tasks: Seq<TaskView>,
    pub next_id: u32,
    pub day_cursor: usize,
    pub task_cursor: usize,
    pub form: FormView,
    pub editing_event_id: Option<u32>,
    pub task_input: Seq<char>,
    pub delete_target: Option<DeleteTarget>,
    pub month_view_year: u16,
    pub month_view_month: u8,
    pub month_cursor_day: u8,
}

impl PlannerView {
    /// The planner as it starts: the day view of `date`, nothing stored,
    /// ids counted from the first id.
    pub open spec fn initial(date: Date) -> PlannerView {
        PlannerView {
            state: AppState::DayView,
            needs_redraw: true,
            needs_save: false,
            current_date: date,
            events: Seq::empty(),
            tasks: Seq::empty(),
            next_id: FIRST_ID,
            day_cursor: 0,
            task_cursor: 0,
            form: FormView::blank(),
            editing_event_id: None,
            task_input: Seq::empty(),
            delete_target: None,
            month_view_year: date.year,
            month_view_month: date.month,
            month_cursor_day: date.day,
        }
    }

    /// The agenda of the current date.
    pub open spec fn agenda(self) -> Seq<EventView> {
        agenda_for(self.events, self.current_date)
    }

    /// An id can still be handed out: the counter has room to advance.
    pub open spec fn can_allocate(self) -> bool {
        self.next_id < u32::MAX
    }

    /// The planner after it handed out an id: the id is the counter's value,
    /// and the counter is one more.
    pub open spec fn after_allocation(self) -> PlannerView {
        PlannerView { next_id: (self.next_id + 1) as u32, ..self }
    }

    /// The planner after it handed out `count` ids in a row.
    pub open spec fn after_allocations(self, count: nat) -> PlannerView
        decreases count,
    {
        if count == 0 {
            self
        } else {
            self.after_allocations((count - 1) as nat).after_allocation()
        }
    }

    /// The event that a submitted form makes: the next id, the current
    /// date, and the form's title, time and priority.
    pub open spec fn new_event(self) -> EventView {
        EventView {
            id: self.next_id,
            date: self.current_date,
            time: self.form.time(),
            title: self.form.title,
            priority: self.form.priority,
        }
    }

    /// An event after the form's values are written over it: the time and
    /// the priority always, the title unless the form's title is empty.
    pub open spec fn edited(self, event: EventView) -> EventView {
        EventView {
            title: if self.form.title.len() > 0 {
                self.form.title
            } else {
                event.title
            },
            time: self.form.time(),
            priority: self.form.priority,
            ..event
        }
    }

    /// The task that a submitted task title makes: the next id, the title,
    /// open, of normal priority.
    pub open spec fn new_task(self) -> TaskView {
        TaskView {
            id: self.next_id,
            title: self.task_input,
            done: false,
            priority: Priority::Normal,
        }
    }

    /// The day view after `key`. The menu key changes nothing here: it asks
    /// the caller to quit.
    pub open spec fn day_view_step(self, key: char) -> PlannerView {
        let agenda = self.agenda();
        if key == KEY_MENU {
            self
        } else if key == KEY_UP {
            if self.day_cursor > 0 && agenda.len() > 0 {
                PlannerView { day_cursor: (self.day_cursor - 1) as usize, ..self }
            } else {
                self
            }
        } else if key == KEY_DOWN {
            if self.day_cursor + 1 < agenda.len() {
                PlannerView { day_cursor: (self.day_cursor + 1) as usize, ..self }
            } else {
                self
            }
        } else if key == KEY_LEFT {
            if self.current_date.has_prev_day() {
                PlannerView {
                    current_date: self.current_date.spec_prev_day(),
                    day_cursor: 0,
                    ..self
                }
            } else {
                self
            }
        } else if key == KEY_RIGHT {
            if self.current_date.has_next_day() {
                PlannerView {
                    current_date: self.current_date.spec_next_day(),
                    day_cursor: 0,
                    ..self
                }
            } else {
                self
            }
        } else if is_letter(key, 'a', 'A') {
            PlannerView {
                form: FormView::blank(),
                editing_event_id: None,
                state: AppState::AddEvent,
                ..self
            }
        } else if is_letter(key, 'e', 'E') {
            if self.day_cursor < agenda.len() {
                PlannerView {
                    form: FormView::of_event(agenda[self.day_cursor as int]),
                    editing_event_id: Some(agenda[self.day_cursor as int].id),
                    state: AppState::EditEvent,
                    ..self
                }
            } else {
                self
            }
        } else if is_letter(key, 'd', 'D') {
            if self.day_cursor < agenda.len() {
                PlannerView {
                    delete_target: Some(DeleteTarget::Event(agenda[self.day_cursor as int].id)),
                    state: AppState::ConfirmDel,
                    ..self
                }
            } else {
                self
            }
        } else if is_letter(key, 't', 'T') {
            PlannerView { task_cursor: 0, state: AppState::TaskList, ..self }
        } else if is_letter(key, 'm', 'M') {
            PlannerView {
                month_view_year: self.current_date.year,
                month_view_month: self.current_date.month,
                month_cursor_day: self.current_date.day,
                state: AppState::MonthView,
                ..self
            }
        } else {
            self
        }
    }

    /// The task list after `key`.
    pub open spec fn task_list_step(self, key: char) -> PlannerView {
        let at = self.task_cursor as int;
        if key == KEY_MENU || key == KEY_LEFT {
            PlannerView { state: AppState::DayView, ..self }
        } else if key == KEY_UP {
            if self.task_cursor > 0 && self.tasks.len() > 0 {
                PlannerView { task_cursor: (self.task_cursor - 1) as usize, ..self }
            } else {
                self
            }
        } else if key == KEY_DOWN {
            if self.task_cursor + 1 < self.tasks.len() {
                PlannerView { task_cursor: (self.task_cursor + 1) as usize, ..self }
            } else {
                self
            }
        } else if key == KEY_ENTER {
            if at < self.tasks.len() {
                PlannerView {
                    tasks: sorted_tasks(
                        self.tasks.update(
                            at,
                            TaskView { done: !self.tasks[at].done, ..self.tasks[at] },
                        ),
                    ),
                    needs_save: true,
                    ..self
                }
            } else {
                self
            }
        } else if is_letter(key, 'a', 'A') {
            PlannerView { task_input: Seq::empty(), state: AppState::AddTask, ..self }
        } else if is_letter(key, 'p', 'P') {
            if at < self.tasks.len() {
                PlannerView {
                    tasks: sorted_tasks(
                        self.tasks.update(
                            at,
                            TaskView {
                                priority: self.tasks[at].priority.spec_cycle(),
                                ..self.tasks[at]
                            },
                        ),
                    ),
                    needs_save: true,
                    ..self
                }
            } else {
                self
            }
        } else if is_letter(key, 'd', 'D') {
            if at < self.tasks.len() {
                PlannerView {
                    delete_target: Some(DeleteTarget::Task(self.tasks[at].id)),
                    state: AppState::ConfirmDel,
                    ..self
                }
            } else {
                self
            }
        } else {
            self
        }
    }

    /// The add-event form after `key`: the form takes the key; on submit a
    /// new event is appended if the title is not empty and an id can be
    /// handed out; submit and abort both lead back to the day view.
    pub open spec fn add_event_step(self, key: char) -> PlannerView {
        match FormView::signal(key) {
            FormSignal::Editing => PlannerView { form: self.form.step(key), ..self },
            FormSignal::Abort => PlannerView { state: AppState::DayView, ..self },
            FormSignal::Submit => if self.form.title.len() > 0 && self.can_allocate() {
                PlannerView {
                    events: self.events.push(self.new_event()),
                    needs_save: true,
                    state: AppState::DayView,
                    ..self.after_allocation()
                }
            } else {
                PlannerView { state: AppState::DayView, ..self }
            },
        }
    }

    /// The edit-event form after `key`: the form takes the key; on submit
    /// the first event with the id under edit, if there is one, is
    /// overwritten; submit and abort both lead back to the day view.
    pub open spec fn edit_event_step(self, key: char) -> PlannerView {
        match FormView::signal(key) {
            FormSignal::Editing => PlannerView { form: self.form.step(key), ..self },
            FormSignal::Abort => PlannerView { state: AppState::DayView, ..self },
            FormSignal::Submit => match self.editing_event_id {
                Some(id) => PlannerView {
                    events: match first_with_id(self.events, id) {
                        Some(i) => self.events.update(i, self.edited(self.events[i])),
                        None => self.events,
                    },
                    needs_save: true,
                    state: AppState::DayView,
                    ..self
                },
                None => PlannerView { state: AppState::DayView, ..self },
            },
        }
    }

    /// The add-task view after `key`.
    pub open spec fn add_task_step(self, key: char) -> PlannerView {
        if key == KEY_MENU {
            PlannerView { state: AppState::TaskList, ..self }
        } else if key == KEY_BACKSPACE {
            if self.task_input.len() > 0 {
                PlannerView { task_input: self.task_input.drop_last(), ..self }
            } else {
                self
            }
        } else if key == KEY_ENTER {
            if self.task_input.len() > 0 && self.can_allocate() {
                PlannerView {
                    tasks: sorted_tasks(self.tasks.push(self.new_task())),
                    needs_save: true,
                    state: AppState::TaskList,
                    ..self.after_allocation()
                }
            } else {
                PlannerView { state: AppState::TaskList, ..self }
            }
        } else if is_printable(key) && self.task_input.len() < TASK_TITLE_MAX {
            PlannerView { task_input: self.task_input.push(key), ..self }
        } else {
            self
        }
    }

    /// The task cursor after a task was deleted: unchanged while it still
    /// points into the list or is 0, else on the last task.
    pub open spec fn clamped_task_cursor(cursor: usize, count: nat) -> usize {
        if cursor > 0 && cursor >= count {
            if count > 0 {
                (count - 1) as usize
            } else {
                0
            }
        } else {
            cursor
        }
    }

    /// The delete confirmation after `key`: `y`, `Y` or Enter delete what
    /// is pending, if anything is, and lead back to the list it came from;
    /// any other key forgets what is pending and leads to the day view.
    pub open spec fn confirm_del_step(self, key: char) -> PlannerView {
        if is_letter(key, 'y', 'Y') || key == KEY_ENTER {
            match self.delete_target {
                Some(DeleteTarget::Event(id)) => PlannerView {
                    events: self.events.filter(event_kept(id)),
                    day_cursor: 0,
                    delete_target: None,
                    needs_save: true,
                    state: AppState::DayView,
                    ..self
                },
                Some(DeleteTarget::Task(id)) => PlannerView {
                    tasks: self.tasks.filter(task_kept(id)),
                    task_cursor: Self::clamped_task_cursor(
                        self.task_cursor,
                        self.tasks.filter(task_kept(id)).len(),
                    ),
                    delete_target: None,
                    needs_save: true,
                    state: AppState::TaskList,
                    ..self
                },
                None => self,
            }
        } else {
            PlannerView { delete_target: None, state: AppState::DayView, ..self }
        }
    }

    /// Number of days in the month that the month view shows.
    pub open spec fn month_view_length(self) -> int {
        month_length(self.month_view_year as int, self.month_view_month as int)
    }

    /// The month view moved to another month, the cursor pulled back onto
    /// the month's last day where it lay beyond it.
    pub open spec fn showing_month(self, year: u16, month: u8) -> PlannerView {
        PlannerView {
            month_view_year: year,
            month_view_month: month,
            month_cursor_day: if self.month_cursor_day > month_length(year as int, month as int) {
                month_length(year as int, month as int) as u8
            } else {
                self.month_cursor_day
            },
            ..self
        }
    }

    /// The month view after `key`.
    pub open spec fn month_view_step(self, key: char) -> PlannerView {
        let last = self.month_view_length();
        if key == KEY_MENU || key == KEY_ENTER {
            if 1 <= self.month_cursor_day <= last {
                PlannerView {
                    current_date: Date {
                        year: self.month_view_year,
                        month: self.month_view_month,
                        day: self.month_cursor_day,
                    },
                    day_cursor: 0,
                    state: AppState::DayView,
                    ..self
                }
            } else {
                PlannerView { state: AppState::DayView, ..self }
            }
        } else if key == KEY_LEFT {
            if self.month_cursor_day > 1 {
                PlannerView { month_cursor_day: (self.month_cursor_day - 1) as u8, ..self }
            } else {
                self
            }
        } else if key == KEY_RIGHT {
            if self.month_cursor_day < last {
                PlannerView { month_cursor_day: (self.month_cursor_day + 1) as u8, ..self }
            } else {
                self
            }
        } else if key == KEY_UP {
            PlannerView {
                month_cursor_day: if self.month_cursor_day > 7 {
                    (self.month_cursor_day - 7) as u8
                } else {
                    1
                },
                ..self
            }
        } else if key == KEY_DOWN {
            PlannerView {
                month_cursor_day: if self.month_cursor_day + 7 <= last {
                    (self.month_cursor_day + 7) as u8
                } else {
                    last as u8
                },
                ..self
            }
        } else if key == '[' {
            if self.month_view_month > 1 {
                self.showing_month(self.month_view_year, (self.month_view_month - 1) as u8)
            } else if self.month_view_year > 0 {
                self.showing_month((self.month_view_year - 1) as u16, 12)
            } else {
                self
            }
        } else if key == ']' {
            if self.month_view_month < 12 {
                self.showing_month(self.month_view_year, (self.month_view_month + 1) as u8)
            } else if self.month_view_year < u16::MAX {
                self.showing_month((self.month_view_year + 1) as u16, 1)
            } else {
                self
            }
        } else {
            self
        }
    }

    /// The planner after `key`: a redraw is owed whatever the key does, and
    /// the view on screen takes the key.
    pub open spec fn step(self, key: char) -> PlannerView {
        let marked = PlannerView { needs_redraw: true, ..self };
        match self.state {
            AppState::DayView => marked.day_view_step(key),
            AppState::TaskList => marked.task_list_step(key),
            AppState::AddEvent => marked.add_event_step(key),
            AppState::EditEvent => marked.edit_event_step(key),
            AppState::AddTask => marked.add_task_step(key),
            AppState::ConfirmDel => marked.confirm_del_step(key),
            AppState::MonthView => marked.month_view_step(key),
        }
    }

    /// Whether the planner goes on after `key`: it stops only for the menu
    /// key in the day view.
    pub open spec fn keeps_running(self, key: char) -> bool {
        !(self.state == AppState::DayView && key == KEY_MENU)
    }
}

/// Every event of a date's agenda falls on that date; an all-day event never
/// follows an event with a time; and from one event with a time to a later
/// one the minute of the day never falls.
pub proof fn lemma_agenda_order(events: Seq<EventView>, date: Date, i: int, j: int)
    requires
        0 <= i <= j < agenda_for(events, date).len(),
    ensures
        agenda_for(events, date)[i].date == date,
        agenda_for(events, date)[j].time.is_none() ==> agenda_for(events, date)[i].time.is_none(),
        agenda_for(events, date)[i].time.is_some() && agenda_for(events, date)[j].time.is_some()
            ==> agenda_for(events, date)[i].time.unwrap().minute_of_day() <= agenda_for(
            events,
            date,
        )[j].time.unwrap().minute_of_day(),
{
    let on_day = events.filter(on_date(date));
    let agenda = agenda_for(events, date);
    lemma_sorted_events_order(on_day, i, j);
    lemma_stable_sort_members(on_day, agenda_order(), agenda[i]);
    assert(agenda.contains(agenda[i]));
    lemma_filter_members(events, on_date(date));
    let k = choose|k: int| 0 <= k < on_day.len() && on_day[k] == agenda[i];
    assert(on_date(date)(on_day[k]));
}

/// A date's agenda holds exactly the events that fall on the date, each as
/// often as the events hold it.
pub proof fn lemma_agenda_complete(events: Seq<EventView>, date: Date)
    ensures
        agenda_for(events, date).to_multiset() == events.filter(on_date(date)).to_multiset(),
        agenda_for(events, date).len() == events.filter(on_date(date)).len(),
{
    lemma_sorted_events_same_events(events.filter(on_date(date)));
}

/// The planner: what is on screen, the events and tasks, and the values
/// under edit.
pub struct PlannerApp {
    pub state: AppState,
    /// Set by every key; the caller clears it when it has painted.
    pub needs_redraw: bool,
    /// Set when events, tasks or the id counter changed; the caller clears
    /// it when it has stored them.
    pub needs_save: bool,
    pub current_date: Date,
    pub events: Vec<Event>,
    pub tasks: Vec<Task>,
    pub next_id: u32,
    pub day_cursor: usize,
    pub task_cursor: usize,
    pub form_title: String,
    pub form_hour: u8,
    pub form_minute: u8,
    pub form_has_time: bool,
    pub form_priority: Priority,
    pub form_field: EventField,
    pub editing_event_id: Option<u32>,
    pub task_input: String,
    pub delete_target: Option<DeleteTarget>,
    pub month_view_year: u16,
    pub month_view_month: u8,
    pub month_cursor_day: u8,
}

impl View for PlannerApp {
    type V = PlannerView;

    open spec fn view(&self) -> PlannerView {
        PlannerView {
            state: self.state,
            needs_redraw: self.needs_redraw,
            needs_save: self.needs_save,
            current_date: self.current_date,
            events: views(self.events@),
            tasks: views(self.tasks@),
            next_id: self.next_id,
            day_cursor: self.day_cursor,
            task_cursor: self.task_cursor,
            form: FormView {
                title: self.form_title@,
                hour: self.form_hour,
                minute: self.form_minute,
                has_time: self.form_has_time,
                priority: self.form_priority,
                field: self.form_field,
            },
            editing_event_id: self.editing_event_id,
            task_input: self.task_input@,
            delete_target: self.delete_target,
            month_view_year: self.month_view_year,
            month_view_month: self.month_view_month,
            month_cursor_day: self.month_cursor_day,
        }
    }
}

impl PlannerApp {
    /// A planner that shows the day view of `initial_date` and holds
    /// nothing yet.
    pub fn new(initial_date: Date) -> (app: PlannerApp)
        ensures
            app@ == PlannerView::initial(initial_date),
            initial_date.valid() ==> app@.well_formed(),
    {
        proof {
            if initial_date.valid() {
                lemma_initial_well_formed(initial_date);
            }
        }
        let app = PlannerApp {
            state: AppState::DayView,
            needs_redraw: true,
            needs_save: false,
            current_date: initial_date,
            events: Vec::new(),
            tasks: Vec::new(),
            next_id: FIRST_ID,
            day_cursor: 0,
            task_cursor: 0,
            form_title: String::new(),
            form_hour: 9,
            form_minute: 0,
            form_has_time: true,
            form_priority: Priority::Normal,
            form_field: EventField::Title,
            editing_event_id: None,
            task_input: String::new(),
            delete_target: None,
            month_view_year: initial_date.year,
            month_view_month: initial_date.month,
            month_cursor_day: initial_date.day,
        };
        assert(app@.events =~= Seq::empty());
        assert(app@.tasks =~= Seq::empty());
        app
    }

    /// Events for the currently selected date, sorted by time: all-day
    /// events first, then events with a time by minute of the day.
    pub fn events_for_date(&self) -> (agenda: Vec<&Event>)
        ensures
            views(agenda@) == self@.agenda(),
            forall|i: int| 0 <= i < agenda.len() ==> (#[trigger] agenda[i]).date == self.current_date,
            forall|i: int, j: int|
                0 <= i <= j < agenda.len() ==> agenda_rank(#[trigger] agenda[i].time)
                    <= agenda_rank(#[trigger] agenda[j].time),
    {
        let mut agenda: Vec<&Event> = Vec::new();
        let mut seen: usize = 0;
        proof {
            assert(views(self.events@.take(0)) =~= Seq::empty());
            assert(views(agenda@) =~= Seq::empty());
            assert(rank_fn::<&Event>() =~= agenda_order());
            reveal(Seq::filter);
        }
        while seen < self.events.len()
            invariant
                seen <= self.events.len(),
                rank_fn::<&Event>() == agenda_order(),
                views(agenda@) == agenda_for(
                    views(self.events@.take(seen as int)),
                    self.current_date,
                ),
            decreases self.events.len() - seen,
        {
            let event = &self.events[seen];
            let ghost so_far = views(self.events@.take(seen as int));
            proof {
                assert(views(self.events@.take(seen + 1)) =~= so_far.push(event@));
                so_far.lemma_filter_push(event@, on_date(self.current_date));
            }
            if event.date == self.current_date {
                let ghost sorted = views(agenda@);
                agenda.push(event);
                proof {
                    lemma_stable_sort_ordered(
                        so_far.filter(on_date(self.current_date)),
                        agenda_order(),
                    );
                    assert(agenda@.take(agenda.len() - 1) =~= agenda@.drop_last());
                    assert(views(agenda@.drop_last()) =~= sorted);
                }
                let last = agenda.len() - 1;
                settle(&mut agenda, last);
                proof {
                    let on_day = so_far.filter(on_date(self.current_date)).push(event@);
                    assert(on_day.drop_last() =~= so_far.filter(on_date(self.current_date)));
                    assert(agenda@.take(agenda.len() as int) =~= agenda@);
                }
            }
            seen += 1;
        }
        proof {
            assert(self.events@.take(seen as int) =~= self.events@);
            let listed = views(agenda@);
            assert forall|i: int, j: int| 0 <= i <= j < agenda.len() implies (
            #[trigger] agenda[i]).date == self.current_date && agenda_rank(agenda[i].time)
                <= agenda_rank((#[trigger] agenda[j]).time) by {
                lemma_agenda_order(self@.events, self.current_date, i, j);
                assert(listed[i] == agenda[i]@ && listed[j] == agenda[j]@);
            }
        }
        agenda
    }

    /// Count events for a given date.
    pub fn event_count_for(&self, date: Date) -> (count: usize)
        ensures
            count == self@.events.filter(on_date(date)).len(),
    {
        let mut count: usize = 0;
        let mut seen: usize = 0;
        proof {
            assert(views(self.events@.take(0)) =~= Seq::empty());
            reveal(Seq::filter);
        }
        while seen < self.events.len()
            invariant
                seen <= self.events.len(),
                count <= seen,
                count == views(self.events@.take(seen as int)).filter(on_date(date)).len(),
            decreases self.events.len() - seen,
        {
            proof {
                let so_far = views(self.events@.take(seen as int));
                assert(views(self.events@.take(seen + 1)) =~= so_far.push(self.events@[seen as int]@));
                so_far.lemma_filter_push(self.events@[seen as int]@, on_date(date));
            }
            if self.events[seen].date == date {
                count += 1;
            }
            seen += 1;
        }
        proof {
            assert(self.events@.take(seen as int) =~= self.events@);
        }
        count
    }

    /// Count incomplete tasks.
    pub fn pending_task_count(&self) -> (count: usize)
        ensures
            count == self@.tasks.filter(task_open()).len(),
    {
        let mut count: usize = 0;
        let mut seen: usize = 0;
        proof {
            assert(views(self.tasks@.take(0)) =~= Seq::empty());
            reveal(Seq::filter);
        }
        while seen < self.tasks.len()
            invariant
                seen <= self.tasks.len(),
                count <= seen,
                count == views(self.tasks@.take(seen as int)).filter(task_open()).len(),
            decreases self.tasks.len() - seen,
        {
            proof {
                let so_far = views(self.tasks@.take(seen as int));
                assert(views(self.tasks@.take(seen + 1)) =~= so_far.push(self.tasks@[seen as int]@));
                so_far.lemma_filter_push(self.tasks@[seen as int]@, task_open());
            }
            if !self.tasks[seen].done {
                count += 1;
            }
            seen += 1;
        }
        proof {
            assert(self.tasks@.take(seen as int) =~= self.tasks@);
        }
        count
    }

    /// Hands out the next id.
    fn alloc_id(&mut self) -> (id: u32)
        requires
            old(self)@.can_allocate(),
        ensures
            id == old(self).next_id,
            final(self)@ == old(self)@.after_allocation(),
    {
        let id = self.next_id;
        self.next_id += 1;
        id
    }

    /// Gives `key` to the event form and says what it meant.
    fn handle_event_form(&mut self, key: char) -> (signal: FormSignal)
        ensures
            signal == FormView::signal(key),
            final(self)@ == (PlannerView { form: old(self)@.form.step(key), ..old(self)@ }),
    {
        if key == KEY_MENU {
            return FormSignal::Abort;
        }
        if key == KEY_ENTER {
            return FormSignal::Submit;
        }
        match self.form_field {
            EventField::Title => {
                if key == KEY_BACKSPACE {
                    pop_char(&mut self.form_title);
                } else if key == KEY_DOWN {
                    self.form_field = EventField::Hour;
                } else if printable(key) {
                    if self.form_title.as_str().unicode_len() < EVENT_TITLE_MAX {
                        push_char(&mut self.form_title, key);
                    }
                }
            },
            EventField::Hour => {
                if key == KEY_UP {
                    self.form_field = EventField::Title;
                } else if key == KEY_DOWN {
                    self.form_field = EventField::Minute;
                } else if key == KEY_LEFT {
                    if self.form_hour > 0 {
                        self.form_hour -= 1;
                    } else {
                        self.form_hour = 23;
                    }
                } else if key == KEY_RIGHT {
                    if self.form_hour < 23 {
                        self.form_hour += 1;
                    } else {
                        self.form_hour = 0;
                    }
                } else if key == ' ' {
                    self.form_has_time = !self.form_has_time;
                }
            },
            EventField::Minute => {
                if key == KEY_UP {
                    self.form_field = EventField::Hour;
                } else if key == KEY_DOWN {
                    self.form_field = EventField::Priority;
                } else if key == KEY_LEFT {
                    if self.form_minute >= 5 {
                        self.form_minute -= 5;
                    } else {
                        self.form_minute = 55;
                    }
                } else if key == KEY_RIGHT {
                    if self.form_minute < 55 {
                        self.form_minute += 5;
                    } else {
                        self.form_minute = 0;
                    }
                }
            },
            EventField::Priority => {
                if key == KEY_UP {
                    self.form_field = EventField::Minute;
                } else if key == KEY_LEFT || key == KEY_RIGHT || key == ' ' {
                    self.form_priority = self.form_priority.cycle();
                }
            },
        }
        FormSignal::Editing
    }

    /// The time that the form stands for.
    fn form_time(&self) -> (time: Option<Time>)
        ensures
            time == self@.form.time(),
    {
        if self.form_has_time {
            Some(Time::new(self.form_hour, self.form_minute))
        } else {
            None
        }
    }

    /// A key in the add-event form.
    fn handle_add_event(&mut self, key: char) -> (running: bool)
        ensures
            running,
            final(self)@ == old(self)@.add_event_step(key),
    {
        match self.handle_event_form(key) {
            FormSignal::Editing => {},
            FormSignal::Abort => {
                self.state = AppState::DayView;
            },
            FormSignal::Submit => {
                if !self.form_title.as_str().is_empty() && self.next_id < u32::MAX {
                    let ghost before = self@;
                    let id = self.alloc_id();
                    let mut event = Event::new(id, self.current_date, self.form_title.clone());
                    event.time = self.form_time();
                    event.priority = self.form_priority;
                    self.events.push(event);
                    self.needs_save = true;
                    proof {
                        assert(self@.events =~= before.events.push(before.new_event()));
                    }
                }
                self.state = AppState::DayView;
            },
        }
        true
    }

    /// A key in the edit-event form.
    fn handle_edit_event(&mut self, key: char) -> (running: bool)
        ensures
            running,
            final(self)@ == old(self)@.edit_event_step(key),
    {
        match self.handle_event_form(key) {
            FormSignal::Editing => {},
            FormSignal::Abort => {
                self.state = AppState::DayView;
            },
            FormSignal::Submit => {
                if let Some(id) = self.editing_event_id {
                    let ghost before = self@;
                    let ghost ids = before.events.map_values(|e: EventView| e.id);
                    let mut at: usize = 0;
                    while at < self.events.len() && self.events[at].id != id
                        invariant
                            self@ == before,
                            at <= self.events.len(),
                            ids == before.events.map_values(|e: EventView| e.id),
                            forall|j: int| 0 <= j < at ==> #[trigger] ids[j] != id,
                        decreases self.events.len() - at,
                    {
                        at += 1;
                    }
                    proof {
                        ids.index_of_first_ensures(id);
                        if at < self.events.len() {
                            assert(ids[at as int] == id);
                            assert(ids.contains(id));
                        } else {
                            assert(!ids.contains(id));
                        }
                    }
                    if at < self.events.len() {
                        let time = self.form_time();
                        if !self.form_title.as_str().is_empty() {
                            self.events[at].title = self.form_title.clone();
                        }
                        self.events[at].time = time;
                        self.events[at].priority = self.form_priority;
                        proof {
                            assert(self@.events =~= before.events.update(
                                at as int,
                                before.edited(before.events[at as int]),
                            ));
                        }
                    }
                    self.needs_save = true;
                }
                self.state = AppState::DayView;
            },
        }
        true
    }

    /// Up or Down in the day view: the cursor moves within the agenda.
    fn move_day_cursor(&mut self, key: char)
        requires
            key == KEY_UP || key == KEY_DOWN,
        ensures
            final(self)@ == old(self)@.day_view_step(key),
    {
        let count = self.events_for_date().len();
        if key == KEY_UP {
            if count > 0 && self.day_cursor > 0 {
                self.day_cursor -= 1;
            }
        } else {
            if count > 0 && self.day_cursor < count - 1 {
                self.day_cursor += 1;
            }
        }
    }

    /// Left or Right in the day view: the day before or the day after.
    fn change_day(&mut self, key: char)
        requires
            key == KEY_LEFT || key == KEY_RIGHT,
        ensures
            final(self)@ == old(self)@.day_view_step(key),
    {
        let moved = if key == KEY_LEFT {
            self.current_date.checked_prev_day()
        } else {
            self.current_date.checked_next_day()
        };
        if let Some(date) = moved {
            self.current_date = date;
            self.day_cursor = 0;
        }
    }

    /// `a` in the day view: the form opens for a new event.
    fn open_add_form(&mut self, key: char)
        requires
            key == 'a' || key == 'A',
        ensures
            final(self)@ == old(self)@.day_view_step(key),
    {
        self.form_title = String::new();
        self.form_hour = 9;
        self.form_minute = 0;
        self.form_has_time = true;
        self.form_priority = Priority::Normal;
        self.form_field = EventField::Title;
        self.editing_event_id = None;
        self.state = AppState::AddEvent;
    }

    /// `e` in the day view: the form opens for the selected event.
    fn open_edit_form(&mut self, key: char)
        requires
            key == 'e' || key == 'E',
        ensures
            final(self)@ == old(self)@.day_view_step(key),
    {
        let agenda = self.events_for_date();
        if self.day_cursor < agenda.len() {
            let event = agenda[self.day_cursor];
            let title = event.title.clone();
            let time = event.time;
            let priority = event.priority;
            let id = event.id;
            proof {
                assert(views(agenda@)[self.day_cursor as int] == event@);
            }
            self.form_title = title;
            match time {
                Some(t) => {
                    self.form_hour = t.hour;
                    self.form_minute = t.minute;
                    self.form_has_time = true;
                },
                None => {
                    self.form_hour = 9;
                    self.form_minute = 0;
                    self.form_has_time = false;
                },
            }
            self.form_priority = priority;
            self.form_field = EventField::Title;
            self.editing_event_id = Some(id);
            self.state = AppState::EditEvent;
        }
    }

    /// `d` in the day view: the selected event awaits its deletion.
    fn ask_delete_event(&mut self, key: char)
        requires
            key == 'd' || key == 'D',
        ensures
            final(self)@ == old(self)@.day_view_step(key),
    {
        let agenda = self.events_for_date();
        if self.day_cursor < agenda.len() {
            let id = agenda[self.day_cursor].id;
            proof {
                assert(views(agenda@)[self.day_cursor as int].id == id);
            }
            self.delete_target = Some(DeleteTarget::Event(id));
            self.state = AppState::ConfirmDel;
        }
    }

    /// A key in the day view. Returns false for the menu key, which quits.
    fn handle_day_view(&mut self, key: char) -> (running: bool)
        ensures
            running == (key != KEY_MENU),
            final(self)@ == old(self)@.day_view_step(key),
    {
        if key == KEY_MENU {
            return false;
        }
        if key == KEY_UP || key == KEY_DOWN {
            self.move_day_cursor(key);
        } else if key == KEY_LEFT || key == KEY_RIGHT {
            self.change_day(key);
        } else if key == 'a' || key == 'A' {
            self.open_add_form(key);
        } else if key == 'e' || key == 'E' {
            self.open_edit_form(key);
        } else if key == 'd' || key == 'D' {
            self.ask_delete_event(key);
        } else if key == 't' || key == 'T' {
            self.task_cursor = 0;
            self.state = AppState::TaskList;
        } else if key == 'm' || key == 'M' {
            self.month_view_year = self.current_date.year;
            self.month_view_month = self.current_date.month;
            self.month_cursor_day = self.current_date.day;
            self.state = AppState::MonthView;
        }
        true
    }

    /// A key in the task list.
    fn handle_task_list(&mut self, key: char) -> (running: bool)
        ensures
            running,
            final(self)@ == old(self)@.task_list_step(key),
    {
        let count = self.tasks.len();
        let ghost before = self@;
        if key == KEY_MENU || key == KEY_LEFT {
            self.state = AppState::DayView;
        } else if key == KEY_UP {
            if count > 0 && self.task_cursor > 0 {
                self.task_cursor -= 1;
            }
        } else if key == KEY_DOWN {
            if count > 0 && self.task_cursor < count - 1 {
                self.task_cursor += 1;
            }
        } else if key == KEY_ENTER {
            if self.task_cursor < count {
                let done = self.tasks[self.task_cursor].done;
                self.tasks[self.task_cursor].done = !done;
                proof {
                    let at = before.task_cursor as int;
                    assert(views(self.tasks@) =~= before.tasks.update(
                        at,
                        TaskView { done: !before.tasks[at].done, ..before.tasks[at] },
                    ));
                }
                sort_tasks(&mut self.tasks);
                self.needs_save = true;
            }
        } else if key == 'a' || key == 'A' {
            self.task_input = String::new();
            self.state = AppState::AddTask;
        } else if key == 'p' || key == 'P' {
            if self.task_cursor < count {
                let priority = self.tasks[self.task_cursor].priority.cycle();
                self.tasks[self.task_cursor].priority = priority;
                proof {
                    let at = before.task_cursor as int;
                    assert(views(self.tasks@) =~= before.tasks.update(
                        at,
                        TaskView {
                            priority: before.tasks[at].priority.spec_cycle(),
                            ..before.tasks[at]
                        },
                    ));
                }
                sort_tasks(&mut self.tasks);
                self.needs_save = true;
            }
        } else if key == 'd' || key == 'D' {
            if self.task_cursor < count {
                self.delete_target = Some(DeleteTarget::Task(self.tasks[self.task_cursor].id));
                self.state = AppState::ConfirmDel;
            }
        }
        true
    }

    /// A key in the add-task view.
    fn handle_add_task(&mut self, key: char) -> (running: bool)
        ensures
            running,
            final(self)@ == old(self)@.add_task_step(key),
    {
        if key == KEY_MENU {
            self.state = AppState::TaskList;
        } else if key == KEY_BACKSPACE {
            pop_char(&mut self.task_input);
        } else if key == KEY_ENTER {
            if !self.task_input.as_str().is_empty() && self.next_id < u32::MAX {
                let ghost before = self@;
                let id = self.alloc_id();
                let task = Task::new(id, self.task_input.clone());
                self.tasks.push(task);
                proof {
                    assert(views(self.tasks@) =~= before.tasks.push(before.new_task()));
                }
                sort_tasks(&mut self.tasks);
                self.needs_save = true;
            }
            self.state = AppState::TaskList;
        } else if printable(key) {
            if self.task_input.as_str().unicode_len() < TASK_TITLE_MAX {
                push_char(&mut self.task_input, key);
            }
        }
        true
    }

    /// A key in the delete confirmation.
    fn handle_confirm_del(&mut self, key: char) -> (running: bool)
        ensures
            running,
            final(self)@ == old(self)@.confirm_del_step(key),
    {
        if key == 'y' || key == 'Y' || key == KEY_ENTER {
            match self.delete_target {
                Some(DeleteTarget::Event(id)) => {
                    proof {
                        assert(id_differs::<Event>(id) =~= event_kept(id));
                    }
                    remove_with_id(&mut self.events, id);
                    self.day_cursor = 0;
                    self.state = AppState::DayView;
                    self.delete_target = None;
                    self.needs_save = true;
                },
                Some(DeleteTarget::Task(id)) => {
                    proof {
                        assert(id_differs::<Task>(id) =~= task_kept(id));
                    }
                    remove_with_id(&mut self.tasks, id);
                    if self.task_cursor > 0 && self.task_cursor >= self.tasks.len() {
                        self.task_cursor = if self.tasks.len() > 0 {
                            self.tasks.len() - 1
                        } else {
                            0
                        };
                    }
                    self.state = AppState::TaskList;
                    self.delete_target = None;
                    self.needs_save = true;
                },
                None => {},
            }
        } else {
            self.delete_target = None;
            self.state = AppState::DayView;
        }
        true
    }

    /// Moves the month view to another month and pulls the cursor back onto
    /// the month's last day where it lay beyond it.
    fn show_month(&mut self, year: u16, month: u8)
        ensures
            final(self)@ == old(self)@.showing_month(year, month),
    {
        self.month_view_year = year;
        self.month_view_month = month;
        let last = Date::days_in_month(year, month);
        if self.month_cursor_day > last {
            self.month_cursor_day = last;
        }
    }

    /// A key in the month view.
    fn handle_month_view(&mut self, key: char) -> (running: bool)
        ensures
            running,
            final(self)@ == old(self)@.month_view_step(key),
    {
        let last = Date::days_in_month(self.month_view_year, self.month_view_month);
        if key == KEY_MENU || key == KEY_ENTER {
            if self.month_cursor_day >= 1 && self.month_cursor_day <= last {
                self.current_date = Date::new(
                    self.month_view_year,
                    self.month_view_month,
                    self.month_cursor_day,
                );
                self.day_cursor = 0;
            }
            self.state = AppState::DayView;
        } else if key == KEY_LEFT {
            if self.month_cursor_day > 1 {
                self.month_cursor_day -= 1;
            }
        } else if key == KEY_RIGHT {
            if self.month_cursor_day < last {
                self.month_cursor_day += 1;
            }
        } else if key == KEY_UP {
            if self.month_cursor_day > 7 {
                self.month_cursor_day -= 7;
            } else {
                self.month_cursor_day = 1;
            }
        } else if key == KEY_DOWN {
            if self.month_cursor_day <= last - 7 {
                self.month_cursor_day += 7;
            } else {
                self.month_cursor_day = last;
            }
        } else if key == '[' {
            if self.month_view_month > 1 {
                self.show_month(self.month_view_year, self.month_view_month - 1);
            } else if self.month_view_year > 0 {
                self.show_month(self.month_view_year - 1, 12);
            }
        } else if key == ']' {
            if self.month_view_month < 12 {
                self.show_month(self.month_view_year, self.month_view_month + 1);
            } else if self.month_view_year < u16::MAX {
                self.show_month(self.month_view_year + 1, 1);
            }
        }
        true
    }

    /// Takes one key. Returns true to keep running, false to quit.
    ///
    /// The view on screen decides what the key does; see
    /// [`PlannerView::step`]. Where a key would need a date or an id that
    /// cannot be written (a day after 65535-12-31 or before 0000-01-01, a
    /// month beyond those years, an id after the last one), it changes
    /// nothing: a submitted title is then dropped like an empty one.
    pub fn handle_key(&mut self, key: char) -> (running: bool)
        ensures
            running == old(self)@.keeps_running(key),
            final(self)@ == old(self)@.step(key),
            old(self)@.well_formed() ==> final(self)@.well_formed(),
    {
        proof {
            if self@.well_formed() {
                lemma_step_keeps_well_formed(self@, key);
            }
        }
        self.needs_redraw = true;
        match self.state {
            AppState::DayView => self.handle_day_view(key),
            AppState::TaskList => self.handle_task_list(key),
            AppState::AddEvent => self.handle_add_event(key),
            AppState::EditEvent => self.handle_edit_event(key),
            AppState::AddTask => self.handle_add_task(key),
            AppState::ConfirmDel => self.handle_confirm_del(key),
            AppState::MonthView => self.handle_month_view(key),
        }
    }
}

} // verus!
