//! What holds of the planner in every state that the keys can lead to.
//!
//! A planner is *well formed* when no id is carried twice, every date and
//! time it holds exists, its texts are within their limits and its cursors
//! point into what they select from. The planner starts well formed on a
//! valid date, and no key can change that.

use crate::app::{agenda_for, first_with_id, on_date, event_kept, task_kept, AppState, DeleteTarget,
    PlannerView, TASK_TITLE_MAX};
use crate::form::{FormView, EVENT_TITLE_MAX};
use crate::planner::{agenda_order, lemma_next_day_follows, lemma_prev_day_precedes, sorted_tasks,
    task_order, Date, EventView, TaskView};
use crate::sorting::{lemma_filter_count_shrinks, lemma_filter_members, lemma_stable_sort_count,
    lemma_stable_sort_members, lemma_stable_sort_permutes, lemma_update_count, stable_sort};
use vstd::prelude::*;

verus! {

/// The condition that an event carries `id`.
pub open spec fn event_has_id(id: u32) -> spec_fn(EventView) -> bool {
    |e: EventView| e.id == id
}

/// The condition that a task carries `id`.
pub open spec fn task_has_id(id: u32) -> spec_fn(TaskView) -> bool {
    |t: TaskView| t.id == id
}

/// The condition that an event is as the planner makes events: on a valid
/// date, at a valid time if it has one, with a title of 1 to 40 characters.
pub open spec fn event_sound() -> spec_fn(EventView) -> bool {
    |e: EventView|
        {
            &&& e.date.valid()
            &&& e.time matches Some(t) ==> t.valid()
            &&& 1 <= e.title.len() <= EVENT_TITLE_MAX
        }
}

/// The condition that a task is as the planner makes tasks: with a title of
/// 1 to 50 characters.
pub open spec fn task_sound() -> spec_fn(TaskView) -> bool {
    |t: TaskView| 1 <= t.title.len() <= TASK_TITLE_MAX
}

impl PlannerView {
    /// Number of events and tasks that carry `id`.
    pub open spec fn carriers(self, id: u32) -> nat {
        self.events.filter(event_has_id(id)).len() + self.tasks.filter(task_has_id(id)).len()
    }

    /// No id at or above the counter is carried, and every id below it is
    /// carried by at most one event or task, the two taken together.
    pub open spec fn ids_unique(self) -> bool {
        forall|id: u32|
            #[trigger] self.carriers(id) <= if id < self.next_id {
                1nat
            } else {
                0nat
            }
    }

    /// The current date is valid, and the month view shows one of the twelve
    /// months with its cursor on one of the month's days.
    pub open spec fn dates_valid(self) -> bool {
        &&& self.current_date.valid()
        &&& 1 <= self.month_view_month <= 12
        &&& 1 <= self.month_cursor_day <= self.month_view_length()
    }

    /// Each cursor is 0 or points at an entry of its list.
    pub open spec fn cursors_in_range(self) -> bool {
        &&& self.day_cursor == 0 || self.day_cursor < self.agenda().len()
        &&& self.task_cursor == 0 || self.task_cursor < self.tasks.len()
    }

    /// The values under edit are within their limits.
    pub open spec fn inputs_in_range(self) -> bool {
        &&& self.form.title.len() <= EVENT_TITLE_MAX
        &&& self.form.hour <= 23
        &&& self.form.minute <= 59
        &&& self.task_input.len() <= TASK_TITLE_MAX
    }

    /// All of the above, and every event and task is as the planner makes
    /// them.
    pub open spec fn well_formed(self) -> bool {
        &&& self.ids_unique()
        &&& self.dates_valid()
        &&& self.cursors_in_range()
        &&& self.inputs_in_range()
        &&& self.events.all(event_sound())
        &&& self.tasks.all(task_sound())
    }
}

/// What holds of every element of a sequence holds of every element of its
/// stable sort.
pub proof fn lemma_all_sorted<T>(s: Seq<T>, key: spec_fn(T) -> nat, pred: spec_fn(T) -> bool)
    requires
        s.all(pred),
    ensures
        stable_sort(s, key).all(pred),
{
    let sorted = stable_sort(s, key);
    assert forall|i: int| 0 <= i < sorted.len() implies #[trigger] pred(sorted[i]) by {
        lemma_stable_sort_members(s, key, sorted[i]);
        assert(sorted.contains(sorted[i]));
        let j = choose|j: int| 0 <= j < s.len() && s[j] == sorted[i];
        assert(pred(s[j]));
    }
}

/// What holds of every element of a sequence holds of every element that a
/// filter keeps.
pub proof fn lemma_all_filtered<T>(s: Seq<T>, keep: spec_fn(T) -> bool, pred: spec_fn(T) -> bool)
    requires
        s.all(pred),
    ensures
        s.filter(keep).all(pred),
{
    let kept = s.filter(keep);
    lemma_filter_members(s, keep);
    assert forall|i: int| 0 <= i < kept.len() implies #[trigger] pred(kept[i]) by {
        assert(s.contains(kept[i]));
        let j = choose|j: int| 0 <= j < s.len() && s[j] == kept[i];
        assert(pred(s[j]));
    }
}

/// A planner that holds the same events and tasks and the same counter as
/// one whose ids are unique has unique ids.
proof fn lemma_same_items(a: PlannerView, b: PlannerView)
    requires
        a.ids_unique(),
        a.events == b.events,
        a.tasks == b.tasks,
        a.next_id == b.next_id,
    ensures
        b.ids_unique(),
{
    assert forall|id: u32|
        #[trigger] b.carriers(id) <= (if id < b.next_id {
            1nat
        } else {
            0nat
        }) by {
        assert(a.carriers(id) == b.carriers(id));
    }
}

/// The planner starts well formed when it starts on a valid date.
pub proof fn lemma_initial_well_formed(date: Date)
    requires
        date.valid(),
    ensures
        PlannerView::initial(date).well_formed(),
{
    let a = PlannerView::initial(date);
    reveal(Seq::filter);
    assert forall|id: u32|
        #[trigger] a.carriers(id) <= (if id < a.next_id {
            1nat
        } else {
            0nat
        }) by {
        assert(a.events.filter(event_has_id(id)).len() == 0);
        assert(a.tasks.filter(task_has_id(id)).len() == 0);
    }
}

proof fn lemma_day_view_step(a: PlannerView, key: char)
    requires
        a.well_formed(),
    ensures
        a.day_view_step(key).well_formed(),
{
    let b = a.day_view_step(key);
    lemma_same_items(a, b);
    if a.current_date.has_prev_day() {
        lemma_prev_day_precedes(a.current_date);
    }
    if a.current_date.has_next_day() {
        lemma_next_day_follows(a.current_date);
    }
    let on_day = a.events.filter(on_date(a.current_date));
    lemma_all_filtered(a.events, on_date(a.current_date), event_sound());
    lemma_all_sorted(on_day, agenda_order(), event_sound());
    if a.day_cursor < a.agenda().len() {
        assert(event_sound()(a.agenda()[a.day_cursor as int]));
    }
}

proof fn lemma_task_list_step(a: PlannerView, key: char)
    requires
        a.well_formed(),
    ensures
        a.task_list_step(key).well_formed(),
{
    let b = a.task_list_step(key);
    let at = a.task_cursor as int;
    if b.tasks == a.tasks {
        lemma_same_items(a, b);
    } else {
        let changed = if key == crate::keys::KEY_ENTER {
            a.tasks.update(at, TaskView { done: !a.tasks[at].done, ..a.tasks[at] })
        } else {
            a.tasks.update(
                at,
                TaskView { priority: a.tasks[at].priority.spec_cycle(), ..a.tasks[at] },
            )
        };
        assert(b.tasks == sorted_tasks(changed));
        assert(task_sound()(a.tasks[at]));
        assert(changed.all(task_sound())) by {
            assert forall|i: int| 0 <= i < changed.len() implies #[trigger] task_sound()(
                changed[i],
            ) by {
                if i != at {
                    assert(task_sound()(a.tasks[i]));
                }
            }
        }
        lemma_all_sorted(changed, task_order(), task_sound());
        lemma_stable_sort_permutes(changed, task_order());
        assert forall|id: u32|
            #[trigger] b.carriers(id) <= (if id < b.next_id {
                1nat
            } else {
                0nat
            }) by {
            lemma_stable_sort_count(changed, task_order(), task_has_id(id));
            lemma_update_count(a.tasks, at, changed[at], task_has_id(id));
            assert(a.carriers(id) == b.carriers(id));
        }
    }
}

/// The form stays within its limits whatever key it takes.
proof fn lemma_form_step(form: FormView, key: char)
    requires
        form.title.len() <= EVENT_TITLE_MAX,
        form.hour <= 23,
        form.minute <= 59,
    ensures
        form.step(key).title.len() <= EVENT_TITLE_MAX,
        form.step(key).hour <= 23,
        form.step(key).minute <= 59,
{
}

/// The agenda of the current date after an event on that date was appended
/// is one longer.
proof fn lemma_agenda_grows(a: PlannerView, event: EventView)
    requires
        event.date == a.current_date,
    ensures
        agenda_for(a.events.push(event), a.current_date).len() == a.agenda().len() + 1,
{
    a.events.lemma_filter_push(event, on_date(a.current_date));
    lemma_stable_sort_permutes(a.events.filter(on_date(a.current_date)), agenda_order());
    lemma_stable_sort_permutes(
        a.events.push(event).filter(on_date(a.current_date)),
        agenda_order(),
    );
}

proof fn lemma_add_event_step(a: PlannerView, key: char)
    requires
        a.well_formed(),
    ensures
        a.add_event_step(key).well_formed(),
{
    let b = a.add_event_step(key);
    lemma_form_step(a.form, key);
    if b.events == a.events {
        lemma_same_items(a, b);
    } else {
        let made = a.new_event();
        assert(b.events == a.events.push(made));
        assert(event_sound()(made));
        assert(b.events.all(event_sound())) by {
            assert forall|i: int| 0 <= i < b.events.len() implies #[trigger] event_sound()(
                b.events[i],
            ) by {
                if i < a.events.len() {
                    assert(event_sound()(a.events[i]));
                }
            }
        }
        lemma_agenda_grows(a, made);
        assert forall|id: u32|
            #[trigger] b.carriers(id) <= (if id < b.next_id {
                1nat
            } else {
                0nat
            }) by {
            a.events.lemma_filter_push(made, event_has_id(id));
            assert(a.carriers(id) <= (if id < a.next_id {
                1nat
            } else {
                0nat
            }));
        }
    }
}

proof fn lemma_edit_event_step(a: PlannerView, key: char)
    requires
        a.well_formed(),
    ensures
        a.edit_event_step(key).well_formed(),
{
    let b = a.edit_event_step(key);
    lemma_form_step(a.form, key);
    if b.events == a.events {
        lemma_same_items(a, b);
    } else {
        let id = a.editing_event_id.unwrap();
        a.events.map_values(|e: EventView| e.id).index_of_first_ensures(id);
        let at = first_with_id(a.events, id).unwrap();
        let changed = a.edited(a.events[at]);
        assert(b.events == a.events.update(at, changed));
        assert(event_sound()(a.events[at]));
        assert(event_sound()(changed));
        assert(b.events.all(event_sound())) by {
            assert forall|i: int| 0 <= i < b.events.len() implies #[trigger] event_sound()(
                b.events[i],
            ) by {
                if i != at {
                    assert(event_sound()(a.events[i]));
                }
            }
        }
        lemma_update_count(a.events, at, changed, on_date(a.current_date));
        lemma_stable_sort_permutes(a.events.filter(on_date(a.current_date)), agenda_order());
        lemma_stable_sort_permutes(b.events.filter(on_date(a.current_date)), agenda_order());
        assert forall|id: u32|
            #[trigger] b.carriers(id) <= (if id < b.next_id {
                1nat
            } else {
                0nat
            }) by {
            lemma_update_count(a.events, at, changed, event_has_id(id));
            assert(a.carriers(id) == b.carriers(id));
        }
    }
}

proof fn lemma_add_task_step(a: PlannerView, key: char)
    requires
        a.well_formed(),
    ensures
        a.add_task_step(key).well_formed(),
{
    let b = a.add_task_step(key);
    if !(key == crate::keys::KEY_ENTER && a.task_input.len() > 0 && a.can_allocate()) {
        lemma_same_items(a, b);
    } else {
        let made = a.new_task();
        let grown = a.tasks.push(made);
        assert(b.tasks == sorted_tasks(grown));
        assert(task_sound()(made));
        assert(grown.all(task_sound())) by {
            assert forall|i: int| 0 <= i < grown.len() implies #[trigger] task_sound()(
                grown[i],
            ) by {
                if i < a.tasks.len() {
                    assert(task_sound()(a.tasks[i]));
                }
            }
        }
        lemma_all_sorted(grown, task_order(), task_sound());
        lemma_stable_sort_permutes(grown, task_order());
        assert forall|id: u32|
            #[trigger] b.carriers(id) <= (if id < b.next_id {
                1nat
            } else {
                0nat
            }) by {
            lemma_stable_sort_count(grown, task_order(), task_has_id(id));
            a.tasks.lemma_filter_push(made, task_has_id(id));
            assert(a.carriers(id) <= (if id < a.next_id {
                1nat
            } else {
                0nat
            }));
        }
    }
}

proof fn lemma_confirm_del_step(a: PlannerView, key: char)
    requires
        a.well_formed(),
    ensures
        a.confirm_del_step(key).well_formed(),
{
    let b = a.confirm_del_step(key);
    if b.events == a.events && b.tasks == a.tasks {
        lemma_same_items(a, b);
    } else {
        match a.delete_target {
            Some(DeleteTarget::Event(gone)) => {
                lemma_all_filtered(a.events, event_kept(gone), event_sound());
                assert forall|id: u32|
                    #[trigger] b.carriers(id) <= (if id < b.next_id {
                        1nat
                    } else {
                        0nat
                    }) by {
                    lemma_filter_count_shrinks(a.events, event_kept(gone), event_has_id(id));
                    assert(a.carriers(id) <= (if id < a.next_id {
                        1nat
                    } else {
                        0nat
                    }));
                }
            },
            Some(DeleteTarget::Task(gone)) => {
                lemma_all_filtered(a.tasks, task_kept(gone), task_sound());
                assert forall|id: u32|
                    #[trigger] b.carriers(id) <= (if id < b.next_id {
                        1nat
                    } else {
                        0nat
                    }) by {
                    lemma_filter_count_shrinks(a.tasks, task_kept(gone), task_has_id(id));
                    assert(a.carriers(id) <= (if id < a.next_id {
                        1nat
                    } else {
                        0nat
                    }));
                }
            },
            None => {},
        }
    }
}

proof fn lemma_month_view_step(a: PlannerView, key: char)
    requires
        a.well_formed(),
    ensures
        a.month_view_step(key).well_formed(),
{
    let b = a.month_view_step(key);
    lemma_same_items(a, b);
}

/// No key leads a well-formed planner to one that is not.
pub proof fn lemma_step_keeps_well_formed(a: PlannerView, key: char)
    requires
        a.well_formed(),
    ensures
        a.step(key).well_formed(),
{
    let marked = PlannerView { needs_redraw: true, ..a };
    lemma_same_items(a, marked);
    assert(marked.well_formed());
    match a.state {
        AppState::DayView => lemma_day_view_step(marked, key),
        AppState::TaskList => lemma_task_list_step(marked, key),
        AppState::AddEvent => lemma_add_event_step(marked, key),
        AppState::EditEvent => lemma_edit_event_step(marked, key),
        AppState::AddTask => lemma_add_task_step(marked, key),
        AppState::ConfirmDel => lemma_confirm_del_step(marked, key),
        AppState::MonthView => lemma_month_view_step(marked, key),
    }
}

impl PlannerView {
    /// The planner after a run of keys, taken in order.
    pub open spec fn run(self, keys: Seq<char>) -> PlannerView
        decreases keys.len(),
    {
        if keys.len() == 0 {
            self
        } else {
            self.run(keys.drop_last()).step(keys.last())
        }
    }
}

/// No run of keys leads a well-formed planner to one that is not.
pub proof fn lemma_run_keeps_well_formed(a: PlannerView, keys: Seq<char>)
    requires
        a.well_formed(),
    ensures
        a.run(keys).well_formed(),
    decreases keys.len(),
{
    if keys.len() > 0 {
        lemma_run_keeps_well_formed(a, keys.drop_last());
        lemma_step_keeps_well_formed(a.run(keys.drop_last()), keys.last());
    }
}

/// A key hands out at most one id. Where it hands out none, no event or
/// task is made: no id is carried more often than before. Where it hands
/// out one, exactly one event or task is made and it carries that id: the
/// id that the counter showed is carried once more than before, and every
/// other id as often as before.
pub proof fn lemma_step_allocates_in_turn(a: PlannerView, key: char, id: u32)
    ensures
        a.step(key).next_id == a.next_id || (a.can_allocate() && a.step(key).next_id
            == a.after_allocation().next_id),
        a.step(key).next_id == a.next_id ==> a.step(key).carriers(id) <= a.carriers(id),
        a.step(key).next_id != a.next_id ==> a.step(key).carriers(id) == a.carriers(id) + if id
            == a.next_id {
            1nat
        } else {
            0nat
        },
{
    let m = PlannerView { needs_redraw: true, ..a };
    let b = a.step(key);
    let at = a.task_cursor as int;
    assert(m.carriers(id) == a.carriers(id));
    match a.state {
        AppState::DayView => {},
        AppState::MonthView => {},
        AppState::AddEvent => {
            a.events.lemma_filter_push(m.new_event(), event_has_id(id));
        },
        AppState::AddTask => {
            let grown = a.tasks.push(m.new_task());
            lemma_stable_sort_count(grown, task_order(), task_has_id(id));
            a.tasks.lemma_filter_push(m.new_task(), task_has_id(id));
        },
        AppState::TaskList => {
            if b.tasks != a.tasks {
                let changed = if key == crate::keys::KEY_ENTER {
                    a.tasks.update(at, TaskView { done: !a.tasks[at].done, ..a.tasks[at] })
                } else {
                    a.tasks.update(
                        at,
                        TaskView { priority: a.tasks[at].priority.spec_cycle(), ..a.tasks[at] },
                    )
                };
                lemma_stable_sort_count(changed, task_order(), task_has_id(id));
                lemma_update_count(a.tasks, at, changed[at], task_has_id(id));
            }
        },
        AppState::EditEvent => {
            if b.events != a.events {
                let edited = a.editing_event_id.unwrap();
                a.events.map_values(|e: EventView| e.id).index_of_first_ensures(edited);
                let i = first_with_id(a.events, edited).unwrap();
                lemma_update_count(a.events, i, m.edited(a.events[i]), event_has_id(id));
            }
        },
        AppState::ConfirmDel => {
            match a.delete_target {
                Some(DeleteTarget::Event(gone)) => {
                    lemma_filter_count_shrinks(a.events, event_kept(gone), event_has_id(id));
                },
                Some(DeleteTarget::Task(gone)) => {
                    lemma_filter_count_shrinks(a.tasks, task_kept(gone), task_has_id(id));
                },
                None => {},
            }
        },
    }
}

/// Ids handed out in a row are the counter's value and the numbers that
/// follow it: they rise from each to the next, so no two of them are the
/// same, whether events or tasks get them.
pub proof fn lemma_allocations_rise(a: PlannerView, earlier: nat, later: nat)
    requires
        earlier < later,
        a.next_id + later <= u32::MAX,
    ensures
        a.after_allocations(earlier).next_id == a.next_id + earlier,
        a.after_allocations(later).next_id == a.next_id + later,
        a.after_allocations(earlier).next_id < a.after_allocations(later).next_id,
    decreases later,
{
    if earlier > 0 {
        lemma_allocations_rise(a, (earlier - 1) as nat, (later - 1) as nat);
        lemma_allocations_rise(a, (earlier - 1) as nat, earlier);
    } else if later > 1 {
        lemma_allocations_rise(a, 0, (later - 1) as nat);
    }
}

} // verus!
