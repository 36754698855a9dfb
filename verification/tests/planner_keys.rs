use day_planner::app::{AppState, DeleteTarget, PlannerApp};
use day_planner::form::EventField;
use day_planner::keys::{
    KEY_BACKSPACE, KEY_DOWN, KEY_ENTER, KEY_LEFT, KEY_MENU, KEY_RIGHT, KEY_UP,
};
use day_planner::planner::{Date, Event, Priority, Task, Time};

fn start() -> PlannerApp {
    PlannerApp::new(Date::new(2026, 1, 1))
}

fn press(app: &mut PlannerApp, keys: &[char]) {
    for &k in keys {
        assert!(app.handle_key(k));
    }
}

fn type_text(app: &mut PlannerApp, text: &str) {
    for c in text.chars() {
        assert!(app.handle_key(c));
    }
}

fn add_event(app: &mut PlannerApp, title: &str) {
    press(app, &['a']);
    type_text(app, title);
    press(app, &[KEY_ENTER]);
}

fn add_timed_event(app: &mut PlannerApp, title: &str, hour_steps: usize) {
    press(app, &['a']);
    type_text(app, title);
    press(app, &[KEY_DOWN]);
    for _ in 0..hour_steps {
        press(app, &[KEY_RIGHT]);
    }
    press(app, &[KEY_ENTER]);
}

fn add_task(app: &mut PlannerApp, title: &str) {
    if app.state != AppState::TaskList {
        press(app, &['t']);
    }
    press(app, &['a']);
    type_text(app, title);
    press(app, &[KEY_ENTER]);
}

fn task_titles(app: &PlannerApp) -> Vec<String> {
    app.tasks.iter().map(|t| t.title.clone()).collect()
}

fn agenda_titles(app: &PlannerApp) -> Vec<String> {
    app.events_for_date().iter().map(|e| e.title.clone()).collect()
}

#[test]
fn new_planner_starts_in_the_day_view() {
    let app = start();
    assert_eq!(app.state, AppState::DayView);
    assert!(app.needs_redraw);
    assert!(!app.needs_save);
    assert_eq!(app.current_date, Date::new(2026, 1, 1));
    assert!(app.events.is_empty());
    assert!(app.tasks.is_empty());
    assert_eq!(app.next_id, 1);
    assert_eq!(app.day_cursor, 0);
    assert_eq!(app.task_cursor, 0);
    assert_eq!(app.form_title, "");
    assert_eq!(app.form_hour, 9);
    assert_eq!(app.form_minute, 0);
    assert!(app.form_has_time);
    assert_eq!(app.form_priority, Priority::Normal);
    assert_eq!(app.form_field, EventField::Title);
    assert_eq!(app.editing_event_id, None);
    assert_eq!(app.task_input, "");
    assert_eq!(app.delete_target, None);
    assert_eq!(app.month_view_year, 2026);
    assert_eq!(app.month_view_month, 1);
    assert_eq!(app.month_cursor_day, 1);
}

#[test]
fn adding_an_event_with_the_defaults() {
    let mut app = start();
    assert_eq!(app.current_date.weekday_name(), "Thu");
    press(&mut app, &['a']);
    assert_eq!(app.state, AppState::AddEvent);
    type_text(&mut app, "Standup");
    assert_eq!(app.form_title, "Standup");
    press(&mut app, &[KEY_ENTER]);
    assert_eq!(app.state, AppState::DayView);
    assert_eq!(app.events.len(), 1);
    let e = &app.events[0];
    assert_eq!(e.id, 1);
    assert_eq!(e.date, Date::new(2026, 1, 1));
    assert_eq!(e.time, Some(Time { hour: 9, minute: 0 }));
    assert_eq!(e.priority, Priority::Normal);
    assert_eq!(e.title, "Standup");
    assert_eq!(app.next_id, 2);
    assert!(app.needs_save);
    let agenda = app.events_for_date();
    assert_eq!(agenda.len(), 1);
    assert_eq!(agenda[0].id, 1);
    assert_eq!(agenda[0].title, "Standup");
    assert_eq!(agenda[0].time_display(), "9:00AM");
}

#[test]
fn a_task_keeps_its_place_until_it_is_done() {
    let mut app = start();
    add_task(&mut app, "Write report");
    add_task(&mut app, "Buy milk");
    add_task(&mut app, "Call home");
    assert_eq!(task_titles(&app), vec!["Write report", "Buy milk", "Call home"]);
    press(&mut app, &[KEY_DOWN]);
    assert_eq!(app.tasks[app.task_cursor].title, "Buy milk");
    press(&mut app, &['p']);
    assert_eq!(task_titles(&app), vec!["Buy milk", "Write report", "Call home"]);
    assert_eq!(app.tasks[0].priority, Priority::High);
    assert_eq!(app.task_cursor, 1);
    press(&mut app, &[KEY_UP, 'p']);
    assert_eq!(task_titles(&app), vec!["Write report", "Call home", "Buy milk"]);
    let milk = &app.tasks[2];
    assert_eq!(milk.priority, Priority::Low);
    assert!(!milk.done);
    assert_eq!(milk.priority.marker(), " ");
    press(&mut app, &[KEY_DOWN, KEY_DOWN, KEY_ENTER]);
    assert!(app.tasks[2].done);
    assert_eq!(app.tasks[2].title, "Buy milk");
    assert!(app.tasks.iter().take(2).all(|t| !t.done));
    assert_eq!(app.pending_task_count(), 2);
}

#[test]
fn a_done_task_sorts_behind_all_open_tasks() {
    let mut app = start();
    add_task(&mut app, "Buy milk");
    add_task(&mut app, "Other");
    add_task(&mut app, "Third");
    assert_eq!(app.task_cursor, 0);
    press(&mut app, &['p']);
    assert_eq!(app.tasks[0].title, "Buy milk");
    assert_eq!(app.tasks[0].priority, Priority::High);
    press(&mut app, &['p']);
    assert_eq!(task_titles(&app), vec!["Other", "Third", "Buy milk"]);
    assert_eq!(app.tasks[2].priority, Priority::Low);
    assert_eq!(app.tasks[2].priority.marker(), " ");
    assert!(!app.tasks[2].done);
    press(&mut app, &[KEY_ENTER]);
    assert_eq!(task_titles(&app), vec!["Third", "Buy milk", "Other"]);
    assert!(app.tasks[2].done);
    assert!(!app.tasks[0].done);
    assert!(!app.tasks[1].done);
    press(&mut app, &[KEY_DOWN, KEY_ENTER]);
    assert_eq!(task_titles(&app), vec!["Third", "Other", "Buy milk"]);
    assert!(app.tasks[1].done && app.tasks[2].done);
    assert_eq!(app.tasks[2].priority, Priority::Low);
}

#[test]
fn right_from_the_last_of_february() {
    let mut app = PlannerApp::new(Date::new(2026, 2, 28));
    press(&mut app, &[KEY_RIGHT]);
    assert_eq!(app.current_date, Date::new(2026, 3, 1));
    assert_eq!(app.state, AppState::DayView);
    assert!(!app.needs_save);
}

#[test]
fn cancelling_the_delete_of_a_task_leads_to_the_day_view() {
    for key in ['n', 'N', 'x', ' ', KEY_MENU, KEY_LEFT, KEY_BACKSPACE, 'd'] {
        let mut app = start();
        add_task(&mut app, "Buy milk");
        app.needs_save = false;
        press(&mut app, &['d']);
        assert_eq!(app.state, AppState::ConfirmDel);
        assert_eq!(app.delete_target, Some(DeleteTarget::Task(1)));
        press(&mut app, &[key]);
        assert_eq!(app.delete_target, None);
        assert_eq!(app.state, AppState::DayView);
        assert_eq!(app.tasks.len(), 1);
        assert!(!app.needs_save);
    }
}

#[test]
fn menu_in_the_day_view_asks_to_quit() {
    let mut app = start();
    app.needs_redraw = false;
    assert!(!app.handle_key(KEY_MENU));
    assert_eq!(app.state, AppState::DayView);
    assert!(app.needs_redraw);
}

#[test]
fn every_key_owes_a_redraw() {
    let mut app = start();
    app.needs_redraw = false;
    assert!(app.handle_key('z'));
    assert!(app.needs_redraw);
    assert_eq!(app.state, AppState::DayView);
}

#[test]
fn left_and_right_move_the_date_and_reset_the_cursor() {
    let mut app = start();
    add_event(&mut app, "one");
    add_event(&mut app, "two");
    press(&mut app, &[KEY_DOWN]);
    assert_eq!(app.day_cursor, 1);
    press(&mut app, &[KEY_LEFT]);
    assert_eq!(app.current_date, Date::new(2025, 12, 31));
    assert_eq!(app.day_cursor, 0);
    press(&mut app, &[KEY_RIGHT, KEY_RIGHT]);
    assert_eq!(app.current_date, Date::new(2026, 1, 2));
    assert_eq!(app.events_for_date().len(), 0);
    assert_eq!(app.event_count_for(Date::new(2026, 1, 1)), 2);
    assert_eq!(app.event_count_for(Date::new(2026, 1, 2)), 0);
}

#[test]
fn left_and_right_stop_at_the_ends_of_the_calendar() {
    let mut app = PlannerApp::new(Date::new(0, 1, 1));
    app.day_cursor = 3;
    press(&mut app, &[KEY_LEFT]);
    assert_eq!(app.current_date, Date::new(0, 1, 1));
    assert_eq!(app.day_cursor, 3);
    let mut app = PlannerApp::new(Date::new(65535, 12, 31));
    press(&mut app, &[KEY_RIGHT]);
    assert_eq!(app.current_date, Date::new(65535, 12, 31));
}

#[test]
fn up_and_down_stay_within_the_agenda() {
    let mut app = start();
    press(&mut app, &[KEY_DOWN]);
    assert_eq!(app.day_cursor, 0);
    press(&mut app, &[KEY_UP]);
    assert_eq!(app.day_cursor, 0);
    add_event(&mut app, "one");
    add_event(&mut app, "two");
    add_event(&mut app, "three");
    press(&mut app, &[KEY_DOWN, KEY_DOWN]);
    assert_eq!(app.day_cursor, 2);
    press(&mut app, &[KEY_DOWN]);
    assert_eq!(app.day_cursor, 2);
    press(&mut app, &[KEY_UP, KEY_UP, KEY_UP]);
    assert_eq!(app.day_cursor, 0);
}

#[test]
fn the_agenda_lists_all_day_events_first_and_then_by_time() {
    let mut app = start();
    add_timed_event(&mut app, "afternoon", 5);
    add_timed_event(&mut app, "morning", 0);
    press(&mut app, &['a']);
    type_text(&mut app, "all day");
    press(&mut app, &[KEY_DOWN, ' ', KEY_ENTER]);
    add_timed_event(&mut app, "also morning", 0);
    press(&mut app, &[KEY_RIGHT]);
    add_timed_event(&mut app, "tomorrow", 0);
    press(&mut app, &[KEY_LEFT]);
    assert_eq!(agenda_titles(&app), vec!["all day", "morning", "also morning", "afternoon"]);
    let agenda = app.events_for_date();
    assert_eq!(agenda[0].time, None);
    assert_eq!(agenda[3].time, Some(Time { hour: 14, minute: 0 }));
    assert!(agenda.iter().all(|e| e.date == Date::new(2026, 1, 1)));
    assert_eq!(app.events.len(), 5);
    assert_eq!(app.events[0].title, "afternoon");
}

#[test]
fn an_empty_title_adds_no_event() {
    let mut app = start();
    press(&mut app, &['a', KEY_ENTER]);
    assert_eq!(app.state, AppState::DayView);
    assert!(app.events.is_empty());
    assert_eq!(app.next_id, 1);
    assert!(!app.needs_save);
}

#[test]
fn menu_aborts_the_event_form() {
    let mut app = start();
    press(&mut app, &['a']);
    type_text(&mut app, "Nope");
    press(&mut app, &[KEY_MENU]);
    assert_eq!(app.state, AppState::DayView);
    assert!(app.events.is_empty());
    assert!(!app.needs_save);
    press(&mut app, &['A']);
    assert_eq!(app.form_title, "");
    assert_eq!(app.state, AppState::AddEvent);
}

#[test]
fn the_title_field_takes_forty_characters() {
    let mut app = start();
    press(&mut app, &['a']);
    for _ in 0..45 {
        press(&mut app, &['x']);
    }
    assert_eq!(app.form_title.len(), 40);
    press(&mut app, &[KEY_BACKSPACE]);
    assert_eq!(app.form_title.len(), 39);
    press(&mut app, &['~', ' ']);
    assert_eq!(app.form_title.len(), 40);
    assert!(app.form_title.ends_with('~'));
}

#[test]
fn the_title_field_takes_printable_ascii_only() {
    let mut app = start();
    press(&mut app, &['a']);
    press(&mut app, &['\u{1f}', '\u{7f}', '\u{e9}', KEY_UP, KEY_LEFT, KEY_RIGHT, '\t']);
    assert_eq!(app.form_title, "");
    press(&mut app, &[' ', '~', 'A', 'e', '[']);
    assert_eq!(app.form_title, " ~Ae[");
    assert_eq!(app.form_field, EventField::Title);
}

#[test]
fn backspace_removes_the_last_character() {
    let mut app = start();
    press(&mut app, &['a']);
    press(&mut app, &[KEY_BACKSPACE]);
    assert_eq!(app.form_title, "");
    type_text(&mut app, "abc");
    press(&mut app, &[KEY_BACKSPACE]);
    assert_eq!(app.form_title, "ab");
    press(&mut app, &[KEY_BACKSPACE, KEY_BACKSPACE, KEY_BACKSPACE]);
    assert_eq!(app.form_title, "");
}

#[test]
fn up_and_down_walk_the_form_fields() {
    let mut app = start();
    press(&mut app, &['a']);
    assert_eq!(app.form_field, EventField::Title);
    press(&mut app, &[KEY_DOWN]);
    assert_eq!(app.form_field, EventField::Hour);
    press(&mut app, &[KEY_DOWN]);
    assert_eq!(app.form_field, EventField::Minute);
    press(&mut app, &[KEY_DOWN]);
    assert_eq!(app.form_field, EventField::Priority);
    press(&mut app, &[KEY_DOWN]);
    assert_eq!(app.form_field, EventField::Priority);
    press(&mut app, &[KEY_UP]);
    assert_eq!(app.form_field, EventField::Minute);
    press(&mut app, &[KEY_UP]);
    assert_eq!(app.form_field, EventField::Hour);
    press(&mut app, &[KEY_UP]);
    assert_eq!(app.form_field, EventField::Title);
    press(&mut app, &[KEY_UP]);
    assert_eq!(app.form_field, EventField::Title);
}

#[test]
fn the_hour_wraps_around() {
    let mut app = start();
    press(&mut app, &['a', KEY_DOWN]);
    for _ in 0..9 {
        press(&mut app, &[KEY_LEFT]);
    }
    assert_eq!(app.form_hour, 0);
    press(&mut app, &[KEY_LEFT]);
    assert_eq!(app.form_hour, 23);
    press(&mut app, &[KEY_RIGHT]);
    assert_eq!(app.form_hour, 0);
    press(&mut app, &[KEY_RIGHT]);
    assert_eq!(app.form_hour, 1);
}

#[test]
fn the_minute_steps_by_five_and_wraps_around() {
    let mut app = start();
    press(&mut app, &['a', KEY_DOWN, KEY_DOWN]);
    press(&mut app, &[KEY_LEFT]);
    assert_eq!(app.form_minute, 55);
    press(&mut app, &[KEY_RIGHT]);
    assert_eq!(app.form_minute, 0);
    press(&mut app, &[KEY_RIGHT, KEY_RIGHT]);
    assert_eq!(app.form_minute, 10);
    press(&mut app, &[KEY_LEFT]);
    assert_eq!(app.form_minute, 5);
    app.form_minute = 3;
    press(&mut app, &[KEY_LEFT]);
    assert_eq!(app.form_minute, 55);
    app.form_minute = 52;
    press(&mut app, &[KEY_RIGHT]);
    assert_eq!(app.form_minute, 57);
    press(&mut app, &[KEY_RIGHT]);
    assert_eq!(app.form_minute, 0);
}

#[test]
fn space_in_the_hour_field_switches_all_day() {
    let mut app = start();
    press(&mut app, &['a']);
    type_text(&mut app, "Fair");
    press(&mut app, &[KEY_DOWN, ' ']);
    assert!(!app.form_has_time);
    assert_eq!(app.form_title, "Fair");
    press(&mut app, &[' ']);
    assert!(app.form_has_time);
    press(&mut app, &[' ', KEY_ENTER]);
    assert_eq!(app.events[0].time, None);
    assert_eq!(app.events[0].time_display(), "All day");
}

#[test]
fn the_priority_field_cycles() {
    let mut app = start();
    press(&mut app, &['a']);
    type_text(&mut app, "Big");
    press(&mut app, &[KEY_DOWN, KEY_DOWN, KEY_DOWN, KEY_LEFT]);
    assert_eq!(app.form_priority, Priority::High);
    press(&mut app, &[KEY_RIGHT]);
    assert_eq!(app.form_priority, Priority::Low);
    press(&mut app, &[' ']);
    assert_eq!(app.form_priority, Priority::Normal);
    press(&mut app, &[' ', KEY_ENTER]);
    assert_eq!(app.events[0].priority, Priority::High);
    assert_eq!(app.events[0].title, "Big");
}

#[test]
fn enter_submits_from_every_field() {
    for downs in 0..4 {
        let mut app = start();
        press(&mut app, &['a']);
        type_text(&mut app, "E");
        for _ in 0..downs {
            press(&mut app, &[KEY_DOWN]);
        }
        press(&mut app, &[KEY_ENTER]);
        assert_eq!(app.state, AppState::DayView);
        assert_eq!(app.events.len(), 1);
    }
}

#[test]
fn menu_aborts_from_every_field() {
    for downs in 0..4 {
        let mut app = start();
        press(&mut app, &['a']);
        type_text(&mut app, "E");
        for _ in 0..downs {
            press(&mut app, &[KEY_DOWN]);
        }
        press(&mut app, &[KEY_MENU]);
        assert_eq!(app.state, AppState::DayView);
        assert!(app.events.is_empty());
        assert_eq!(app.form_title, "E");
    }
}

#[test]
fn a_submitted_time_is_capped() {
    let mut app = start();
    press(&mut app, &['a']);
    type_text(&mut app, "Late");
    app.form_hour = 77;
    app.form_minute = 99;
    press(&mut app, &[KEY_ENTER]);
    assert_eq!(app.events[0].time, Some(Time { hour: 23, minute: 59 }));
}

#[test]
fn editing_loads_the_selected_event() {
    let mut app = start();
    add_timed_event(&mut app, "later", 3);
    press(&mut app, &['a']);
    type_text(&mut app, "whole day");
    press(&mut app, &[KEY_DOWN, ' ', KEY_DOWN, KEY_DOWN, ' ', KEY_ENTER]);
    assert_eq!(agenda_titles(&app), vec!["whole day", "later"]);
    press(&mut app, &['e']);
    assert_eq!(app.state, AppState::EditEvent);
    assert_eq!(app.editing_event_id, Some(2));
    assert_eq!(app.form_title, "whole day");
    assert_eq!(app.form_hour, 9);
    assert_eq!(app.form_minute, 0);
    assert!(!app.form_has_time);
    assert_eq!(app.form_priority, Priority::High);
    assert_eq!(app.form_field, EventField::Title);
    press(&mut app, &[KEY_MENU, KEY_DOWN, 'E']);
    assert_eq!(app.editing_event_id, Some(1));
    assert_eq!(app.form_title, "later");
    assert_eq!(app.form_hour, 12);
    assert!(app.form_has_time);
    assert_eq!(app.form_priority, Priority::Normal);
}

#[test]
fn editing_writes_the_form_over_the_event() {
    let mut app = start();
    add_event(&mut app, "first");
    add_event(&mut app, "second");
    app.needs_save = false;
    press(&mut app, &[KEY_DOWN, 'e']);
    assert_eq!(app.editing_event_id, Some(2));
    press(&mut app, &[KEY_BACKSPACE]);
    type_text(&mut app, "D!");
    press(&mut app, &[KEY_DOWN, KEY_LEFT, KEY_DOWN, KEY_RIGHT, KEY_DOWN, KEY_RIGHT, KEY_ENTER]);
    assert_eq!(app.state, AppState::DayView);
    assert!(app.needs_save);
    assert_eq!(app.events.len(), 2);
    assert_eq!(app.events[0].title, "first");
    assert_eq!(app.events[0].time, Some(Time { hour: 9, minute: 0 }));
    let e = &app.events[1];
    assert_eq!(e.id, 2);
    assert_eq!(e.title, "seconD!");
    assert_eq!(e.time, Some(Time { hour: 8, minute: 5 }));
    assert_eq!(e.priority, Priority::High);
    assert_eq!(e.date, Date::new(2026, 1, 1));
    assert_eq!(app.next_id, 3);
    assert_eq!(agenda_titles(&app), vec!["seconD!", "first"]);
}

#[test]
fn editing_with_an_empty_title_keeps_the_title() {
    let mut app = start();
    add_event(&mut app, "ab");
    press(&mut app, &['e', KEY_BACKSPACE, KEY_BACKSPACE]);
    assert_eq!(app.form_title, "");
    press(&mut app, &[KEY_DOWN, ' ', KEY_ENTER]);
    assert_eq!(app.events[0].title, "ab");
    assert_eq!(app.events[0].time, None);
}

#[test]
fn editing_changes_the_first_event_with_the_id() {
    let mut app = start();
    let mut twin = Event::new(5, Date::new(2026, 1, 1), String::from("one"));
    twin.time = Some(Time::new(8, 0));
    app.events.push(twin);
    app.events.push(Event::new(5, Date::new(2026, 1, 1), String::from("two")));
    app.state = AppState::EditEvent;
    app.editing_event_id = Some(5);
    app.form_title = String::from("new");
    press(&mut app, &[KEY_ENTER]);
    assert_eq!(app.events[0].title, "new");
    assert_eq!(app.events[0].time, Some(Time { hour: 9, minute: 0 }));
    assert_eq!(app.events[1].title, "two");
    assert_eq!(app.events[1].time, None);
}

#[test]
fn editing_an_event_that_is_gone_changes_nothing_but_saves() {
    let mut app = start();
    add_event(&mut app, "here");
    app.needs_save = false;
    app.state = AppState::EditEvent;
    app.editing_event_id = Some(99);
    app.form_title = String::from("lost");
    press(&mut app, &[KEY_ENTER]);
    assert_eq!(app.state, AppState::DayView);
    assert_eq!(app.events.len(), 1);
    assert_eq!(app.events[0].title, "here");
    assert!(app.needs_save);
}

#[test]
fn editing_without_an_id_changes_nothing() {
    let mut app = start();
    add_event(&mut app, "here");
    app.needs_save = false;
    app.state = AppState::EditEvent;
    app.editing_event_id = None;
    app.form_title = String::from("lost");
    press(&mut app, &[KEY_ENTER]);
    assert_eq!(app.state, AppState::DayView);
    assert_eq!(app.events[0].title, "here");
    assert!(!app.needs_save);
}

#[test]
fn edit_and_delete_need_a_selected_event() {
    let mut app = start();
    press(&mut app, &['e']);
    assert_eq!(app.state, AppState::DayView);
    press(&mut app, &['d']);
    assert_eq!(app.state, AppState::DayView);
    assert_eq!(app.delete_target, None);
    add_event(&mut app, "x");
    app.day_cursor = 1;
    press(&mut app, &['e', 'D']);
    assert_eq!(app.state, AppState::DayView);
}

#[test]
fn deleting_an_event_takes_two_steps() {
    let mut app = start();
    add_event(&mut app, "one");
    add_event(&mut app, "two");
    add_event(&mut app, "three");
    app.needs_save = false;
    press(&mut app, &[KEY_DOWN, 'd']);
    assert_eq!(app.state, AppState::ConfirmDel);
    assert_eq!(app.delete_target, Some(DeleteTarget::Event(2)));
    assert_eq!(app.events.len(), 3);
    assert!(!app.needs_save);
    press(&mut app, &['y']);
    assert_eq!(app.state, AppState::DayView);
    assert_eq!(app.delete_target, None);
    assert_eq!(app.day_cursor, 0);
    assert!(app.needs_save);
    assert_eq!(agenda_titles(&app), vec!["one", "three"]);
    assert_eq!(app.next_id, 4);
}

#[test]
fn each_confirming_key_deletes() {
    for key in ['y', 'Y', KEY_ENTER] {
        let mut app = start();
        add_event(&mut app, "one");
        press(&mut app, &['d', key]);
        assert!(app.events.is_empty());
        assert_eq!(app.state, AppState::DayView);
    }
}

#[test]
fn cancelling_the_delete_of_an_event_keeps_it() {
    let mut app = start();
    add_event(&mut app, "one");
    press(&mut app, &['d', 'n']);
    assert_eq!(app.state, AppState::DayView);
    assert_eq!(app.delete_target, None);
    assert_eq!(app.events.len(), 1);
}

#[test]
fn deleting_removes_every_item_with_the_id() {
    let mut app = start();
    app.events.push(Event::new(4, Date::new(2026, 1, 1), String::from("a")));
    app.events.push(Event::new(5, Date::new(2026, 1, 2), String::from("b")));
    app.events.push(Event::new(4, Date::new(2026, 1, 3), String::from("c")));
    app.tasks.push(Task::new(4, String::from("task")));
    app.state = AppState::ConfirmDel;
    app.delete_target = Some(DeleteTarget::Event(4));
    press(&mut app, &['y']);
    assert_eq!(app.events.len(), 1);
    assert_eq!(app.events[0].title, "b");
    assert_eq!(app.tasks.len(), 1);
}

#[test]
fn deleting_an_id_that_is_gone_removes_nothing() {
    let mut app = start();
    add_event(&mut app, "one");
    app.needs_save = false;
    app.state = AppState::ConfirmDel;
    app.delete_target = Some(DeleteTarget::Event(42));
    press(&mut app, &['y']);
    assert_eq!(app.events.len(), 1);
    assert_eq!(app.state, AppState::DayView);
    assert!(app.needs_save);
}

#[test]
fn confirming_with_nothing_pending_stays() {
    let mut app = start();
    app.state = AppState::ConfirmDel;
    app.delete_target = None;
    press(&mut app, &['y']);
    assert_eq!(app.state, AppState::ConfirmDel);
    assert!(!app.needs_save);
    press(&mut app, &['n']);
    assert_eq!(app.state, AppState::DayView);
}

#[test]
fn deleting_a_task_leads_back_to_the_task_list() {
    let mut app = start();
    add_task(&mut app, "one");
    add_task(&mut app, "two");
    add_task(&mut app, "three");
    press(&mut app, &[KEY_DOWN, KEY_DOWN, 'd']);
    assert_eq!(app.delete_target, Some(DeleteTarget::Task(3)));
    press(&mut app, &[KEY_ENTER]);
    assert_eq!(app.state, AppState::TaskList);
    assert_eq!(task_titles(&app), vec!["one", "two"]);
    assert_eq!(app.task_cursor, 1);
    press(&mut app, &[KEY_UP, 'D', 'Y']);
    assert_eq!(task_titles(&app), vec!["two"]);
    assert_eq!(app.task_cursor, 0);
    press(&mut app, &['d', 'y']);
    assert!(app.tasks.is_empty());
    assert_eq!(app.task_cursor, 0);
    press(&mut app, &['d']);
    assert_eq!(app.state, AppState::TaskList);
}

#[test]
fn the_task_list_leads_back_to_the_day_view() {
    for key in [KEY_MENU, KEY_LEFT] {
        let mut app = start();
        press(&mut app, &['T']);
        assert_eq!(app.state, AppState::TaskList);
        press(&mut app, &[key]);
        assert_eq!(app.state, AppState::DayView);
    }
}

#[test]
fn opening_the_task_list_resets_its_cursor() {
    let mut app = start();
    add_task(&mut app, "one");
    add_task(&mut app, "two");
    press(&mut app, &[KEY_DOWN]);
    assert_eq!(app.task_cursor, 1);
    press(&mut app, &[KEY_DOWN]);
    assert_eq!(app.task_cursor, 1);
    press(&mut app, &[KEY_LEFT, 't']);
    assert_eq!(app.task_cursor, 0);
    press(&mut app, &[KEY_UP]);
    assert_eq!(app.task_cursor, 0);
}

#[test]
fn an_empty_task_list_takes_no_selection() {
    let mut app = start();
    press(&mut app, &['t', KEY_ENTER, 'p', 'd', KEY_DOWN, KEY_UP]);
    assert_eq!(app.state, AppState::TaskList);
    assert!(!app.needs_save);
    assert_eq!(app.task_cursor, 0);
}

#[test]
fn adding_a_task() {
    let mut app = start();
    press(&mut app, &['t', 'a']);
    assert_eq!(app.state, AppState::AddTask);
    type_text(&mut app, "Buy milk");
    press(&mut app, &[KEY_BACKSPACE, 'K']);
    assert_eq!(app.task_input, "Buy milK");
    assert!(!app.needs_save);
    press(&mut app, &[KEY_ENTER]);
    assert_eq!(app.state, AppState::TaskList);
    assert_eq!(app.tasks.len(), 1);
    assert_eq!(app.tasks[0].id, 1);
    assert_eq!(app.tasks[0].title, "Buy milK");
    assert!(!app.tasks[0].done);
    assert_eq!(app.tasks[0].priority, Priority::Normal);
    assert_eq!(app.next_id, 2);
    assert!(app.needs_save);
    press(&mut app, &['A']);
    assert_eq!(app.task_input, "");
}

#[test]
fn an_empty_title_adds_no_task() {
    let mut app = start();
    press(&mut app, &['t', 'a', KEY_ENTER]);
    assert_eq!(app.state, AppState::TaskList);
    assert!(app.tasks.is_empty());
    assert_eq!(app.next_id, 1);
    assert!(!app.needs_save);
}

#[test]
fn menu_discards_a_new_task() {
    let mut app = start();
    press(&mut app, &['t', 'a', 'x', KEY_MENU]);
    assert_eq!(app.state, AppState::TaskList);
    assert!(app.tasks.is_empty());
}

#[test]
fn a_task_title_takes_fifty_characters() {
    let mut app = start();
    press(&mut app, &['t', 'a']);
    for _ in 0..60 {
        press(&mut app, &['y']);
    }
    assert_eq!(app.task_input.len(), 50);
    press(&mut app, &['\u{7f}', '\u{100}', KEY_DOWN]);
    assert_eq!(app.task_input.len(), 50);
    press(&mut app, &[KEY_ENTER]);
    assert_eq!(app.tasks[0].title.len(), 50);
}

#[test]
fn a_new_task_sorts_into_the_list() {
    let mut app = start();
    add_task(&mut app, "done one");
    press(&mut app, &[KEY_ENTER]);
    add_task(&mut app, "low one");
    press(&mut app, &['p', 'p']);
    add_task(&mut app, "new one");
    assert_eq!(task_titles(&app), vec!["new one", "low one", "done one"]);
}

#[test]
fn ids_are_shared_by_events_and_tasks() {
    let mut app = start();
    add_event(&mut app, "e1");
    add_task(&mut app, "t2");
    press(&mut app, &[KEY_LEFT]);
    add_event(&mut app, "e3");
    add_task(&mut app, "t4");
    add_task(&mut app, "t5");
    press(&mut app, &[KEY_MENU]);
    add_event(&mut app, "e6");
    let mut ids: Vec<u32> = app.events.iter().map(|e| e.id).collect();
    ids.extend(app.tasks.iter().map(|t| t.id));
    ids.sort();
    assert_eq!(ids, vec![1, 2, 3, 4, 5, 6]);
    assert_eq!(app.events.iter().map(|e| e.id).collect::<Vec<u32>>(), vec![1, 3, 6]);
    assert_eq!(app.next_id, 7);
}

#[test]
fn the_last_id_is_never_handed_out() {
    let mut app = start();
    app.next_id = u32::MAX - 1;
    add_event(&mut app, "fits");
    assert_eq!(app.events.len(), 1);
    assert_eq!(app.events[0].id, u32::MAX - 1);
    assert_eq!(app.next_id, u32::MAX);
    app.needs_save = false;
    add_event(&mut app, "does not");
    assert_eq!(app.state, AppState::DayView);
    assert_eq!(app.events.len(), 1);
    assert_eq!(app.next_id, u32::MAX);
    assert!(!app.needs_save);
    add_task(&mut app, "neither");
    assert_eq!(app.state, AppState::TaskList);
    assert!(app.tasks.is_empty());
    assert!(!app.needs_save);
}

#[test]
fn the_month_view_opens_on_the_current_date() {
    let mut app = PlannerApp::new(Date::new(2026, 3, 17));
    press(&mut app, &['m']);
    assert_eq!(app.state, AppState::MonthView);
    assert_eq!(app.month_view_year, 2026);
    assert_eq!(app.month_view_month, 3);
    assert_eq!(app.month_cursor_day, 17);
}

#[test]
fn the_month_cursor_moves_by_days_and_weeks() {
    let mut app = PlannerApp::new(Date::new(2026, 2, 10));
    press(&mut app, &['M', KEY_LEFT]);
    assert_eq!(app.month_cursor_day, 9);
    press(&mut app, &[KEY_UP]);
    assert_eq!(app.month_cursor_day, 2);
    press(&mut app, &[KEY_UP]);
    assert_eq!(app.month_cursor_day, 1);
    press(&mut app, &[KEY_LEFT]);
    assert_eq!(app.month_cursor_day, 1);
    press(&mut app, &[KEY_DOWN, KEY_DOWN, KEY_DOWN]);
    assert_eq!(app.month_cursor_day, 22);
    press(&mut app, &[KEY_DOWN]);
    assert_eq!(app.month_cursor_day, 28);
    press(&mut app, &[KEY_RIGHT]);
    assert_eq!(app.month_cursor_day, 28);
    press(&mut app, &[KEY_LEFT, KEY_RIGHT]);
    assert_eq!(app.month_cursor_day, 28);
    press(&mut app, &[KEY_UP]);
    assert_eq!(app.month_cursor_day, 21);
    press(&mut app, &[KEY_DOWN]);
    assert_eq!(app.month_cursor_day, 28);
}

#[test]
fn stepping_months_rolls_the_year_and_clamps_the_day() {
    let mut app = PlannerApp::new(Date::new(2025, 12, 31));
    press(&mut app, &['m', ']']);
    assert_eq!((app.month_view_year, app.month_view_month, app.month_cursor_day), (2026, 1, 31));
    press(&mut app, &[']']);
    assert_eq!((app.month_view_year, app.month_view_month, app.month_cursor_day), (2026, 2, 28));
    press(&mut app, &[']']);
    assert_eq!((app.month_view_year, app.month_view_month, app.month_cursor_day), (2026, 3, 28));
    press(&mut app, &['[', '[', '[']);
    assert_eq!((app.month_view_year, app.month_view_month, app.month_cursor_day), (2025, 12, 28));
    assert_eq!(app.current_date, Date::new(2025, 12, 31));
    assert_eq!(app.state, AppState::MonthView);
}

#[test]
fn stepping_months_stops_at_the_ends_of_the_calendar() {
    let mut app = PlannerApp::new(Date::new(0, 1, 15));
    press(&mut app, &['m', '[']);
    assert_eq!((app.month_view_year, app.month_view_month, app.month_cursor_day), (0, 1, 15));
    let mut app = PlannerApp::new(Date::new(65535, 12, 15));
    press(&mut app, &['m', ']']);
    assert_eq!((app.month_view_year, app.month_view_month, app.month_cursor_day), (65535, 12, 15));
    press(&mut app, &['[']);
    assert_eq!((app.month_view_year, app.month_view_month), (65535, 11));
}

#[test]
fn choosing_a_day_in_the_month_view() {
    for key in [KEY_ENTER, KEY_MENU] {
        let mut app = start();
        add_event(&mut app, "one");
        add_event(&mut app, "two");
        app.needs_save = false;
        press(&mut app, &[KEY_DOWN, 'm', ']', KEY_DOWN, KEY_RIGHT, key]);
        assert_eq!(app.state, AppState::DayView);
        assert_eq!(app.current_date, Date::new(2026, 2, 9));
        assert_eq!(app.day_cursor, 0);
        assert!(!app.needs_save);
    }
}

#[test]
fn a_day_that_the_month_lacks_is_not_chosen() {
    let mut app = start();
    app.state = AppState::MonthView;
    app.month_view_year = 2026;
    app.month_view_month = 2;
    app.month_cursor_day = 30;
    app.day_cursor = 4;
    press(&mut app, &[KEY_ENTER]);
    assert_eq!(app.state, AppState::DayView);
    assert_eq!(app.current_date, Date::new(2026, 1, 1));
    assert_eq!(app.day_cursor, 4);
    app.state = AppState::MonthView;
    app.month_cursor_day = 0;
    press(&mut app, &[KEY_ENTER]);
    assert_eq!(app.current_date, Date::new(2026, 1, 1));
}

#[test]
fn down_in_the_month_view_with_a_cursor_far_out() {
    let mut app = start();
    app.state = AppState::MonthView;
    app.month_cursor_day = 250;
    press(&mut app, &[KEY_DOWN]);
    assert_eq!(app.month_cursor_day, 31);
}

#[test]
fn keys_without_a_meaning_change_nothing() {
    let mut app = start();
    add_event(&mut app, "one");
    add_task(&mut app, "task");
    press(&mut app, &[KEY_LEFT]);
    app.needs_save = false;
    for state in [AppState::DayView, AppState::TaskList, AppState::MonthView] {
        app.state = state;
        for key in ['z', '0', KEY_BACKSPACE, '\u{0}', '{'] {
            press(&mut app, &[key]);
            assert_eq!(app.state, state);
        }
    }
    assert_eq!(app.events.len(), 1);
    assert_eq!(app.tasks.len(), 1);
    assert_eq!(app.current_date, Date::new(2026, 1, 1));
    assert!(!app.needs_save);
}

#[test]
fn moving_about_never_asks_to_save() {
    let mut app = start();
    add_event(&mut app, "one");
    add_task(&mut app, "task");
    app.needs_save = false;
    press(
        &mut app,
        &[
            KEY_LEFT, KEY_LEFT, KEY_RIGHT, KEY_UP, KEY_DOWN, 'm', KEY_DOWN, ']', '[', KEY_ENTER, 't',
            KEY_DOWN, KEY_UP, 'a', 'x', KEY_BACKSPACE, KEY_MENU, 'd', 'n', 'a', 'x', KEY_DOWN,
            KEY_RIGHT, KEY_MENU,
        ],
    );
    assert_eq!(app.state, AppState::DayView);
    assert!(!app.needs_save);
}

#[test]
fn counting_events_and_open_tasks() {
    let mut app = start();
    assert_eq!(app.event_count_for(Date::new(2026, 1, 1)), 0);
    assert_eq!(app.pending_task_count(), 0);
    add_event(&mut app, "a");
    add_event(&mut app, "b");
    press(&mut app, &[KEY_RIGHT]);
    add_event(&mut app, "c");
    add_task(&mut app, "t1");
    add_task(&mut app, "t2");
    add_task(&mut app, "t3");
    press(&mut app, &[KEY_ENTER]);
    assert_eq!(app.event_count_for(Date::new(2026, 1, 1)), 2);
    assert_eq!(app.event_count_for(Date::new(2026, 1, 2)), 1);
    assert_eq!(app.event_count_for(Date::new(2026, 1, 3)), 0);
    assert_eq!(app.pending_task_count(), 2);
}
