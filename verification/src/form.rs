//! The event form: a title, a time and a priority, edited one field at a
//! time. The same form serves adding an event and editing one; it reports
//! what a key meant and leaves the rest to whoever owns it.

use crate::keys::{is_printable, KEY_BACKSPACE, KEY_DOWN, KEY_ENTER, KEY_LEFT, KEY_MENU, KEY_RIGHT,
    KEY_UP};
use crate::planner::{EventView, Priority, Time};
use vstd::prelude::*;

verus! {

/// Longest title an event can be given in the form, in characters.
pub const EVENT_TITLE_MAX: usize = 40;

/// Which field of the event form takes the keys.
#[derive(Debug, Clone, Copy, PartialEq, Eq, Structural)]
pub enum EventField {
    Title,
    Hour,
    Minute,
    Priority,
}

/// What a key meant to the form.
#[derive(Debug, Clone, Copy, PartialEq, Eq, Structural)]
pub enum FormSignal {
    /// The form goes on.
    Editing,
    /// The form's values are to be taken over.
    Submit,
    /// The form's values are to be dropped.
    Abort,
}

/// The values of the event form.
pub struct FormView {
    pub title: Seq<char>,
    pub hour: u8,
    pub minute: u8,
    pub has_time: bool,
    pub priority: Priority,
    pub field: EventField,
}

impl FormView {
    /// The form as it opens for a new event: no title, 09:00, normal
    /// priority, the title field active.
    pub open spec fn blank() -> FormView {
        FormView {
            title: Seq::empty(),
            hour: 9,
            minute: 0,
            has_time: true,
            priority: Priority::Normal,
            field: EventField::Title,
        }
    }

    /// The form as it opens for an existing event: the event's values, 09:00
    /// where it has no time, the title field active.
    pub open spec fn of_event(event: EventView) -> FormView {
        FormView {
            title: event.title,
            hour: match event.time {
                Some(t) => t.hour,
                None => 9,
            },
            minute: match event.time {
                Some(t) => t.minute,
                None => 0,
            },
            has_time: event.time.is_some(),
            priority: event.priority,
            field: EventField::Title,
        }
    }

    /// The time that the form stands for: none for an all-day event.
    pub open spec fn time(self) -> Option<Time> {
        if self.has_time {
            Some(Time::spec_new(self.hour, self.minute))
        } else {
            None
        }
    }

    /// What `key` means to the form, whichever field is active: Enter
    /// submits, the menu key aborts, every other key goes on editing.
    pub open spec fn signal(key: char) -> FormSignal {
        if key == KEY_MENU {
            FormSignal::Abort
        } else if key == KEY_ENTER {
            FormSignal::Submit
        } else {
            FormSignal::Editing
        }
    }

    /// The title field after `key`.
    pub open spec fn title_step(self, key: char) -> FormView {
        if key == KEY_BACKSPACE {
            if self.title.len() > 0 {
                FormView { title: self.title.drop_last(), ..self }
            } else {
                self
            }
        } else if key == KEY_DOWN {
            FormView { field: EventField::Hour, ..self }
        } else if is_printable(key) && self.title.len() < EVENT_TITLE_MAX {
            FormView { title: self.title.push(key), ..self }
        } else {
            self
        }
    }

    /// The hour field after `key`.
    pub open spec fn hour_step(self, key: char) -> FormView {
        if key == KEY_UP {
            FormView { field: EventField::Title, ..self }
        } else if key == KEY_DOWN {
            FormView { field: EventField::Minute, ..self }
        } else if key == KEY_LEFT {
            FormView { hour: if self.hour > 0 {
                (self.hour - 1) as u8
            } else {
                23
            }, ..self }
        } else if key == KEY_RIGHT {
            FormView { hour: if self.hour < 23 {
                (self.hour + 1) as u8
            } else {
                0
            }, ..self }
        } else if key == ' ' {
            FormView { has_time: !self.has_time, ..self }
        } else {
            self
        }
    }

    /// The minute field after `key`.
    pub open spec fn minute_step(self, key: char) -> FormView {
        if key == KEY_UP {
            FormView { field: EventField::Hour, ..self }
        } else if key == KEY_DOWN {
            FormView { field: EventField::Priority, ..self }
        } else if key == KEY_LEFT {
            FormView { minute: if self.minute >= 5 {
                (self.minute - 5) as u8
            } else {
                55
            }, ..self }
        } else if key == KEY_RIGHT {
            FormView { minute: if self.minute < 55 {
                (self.minute + 5) as u8
            } else {
                0
            }, ..self }
        } else {
            self
        }
    }

    /// The priority field after `key`.
    pub open spec fn priority_step(self, key: char) -> FormView {
        if key == KEY_UP {
            FormView { field: EventField::Minute, ..self }
        } else if key == KEY_LEFT || key == KEY_RIGHT || key == ' ' {
            FormView { priority: self.priority.spec_cycle(), ..self }
        } else {
            self
        }
    }

    /// The form after `key`. Enter and the menu key change nothing: they
    /// are signals to the form's owner.
    pub open spec fn step(self, key: char) -> FormView {
        if key == KEY_MENU || key == KEY_ENTER {
            self
        } else {
            match self.field {
                EventField::Title => self.title_step(key),
                EventField::Hour => self.hour_step(key),
                EventField::Minute => self.minute_step(key),
                EventField::Priority => self.priority_step(key),
            }
        }
    }
}

} // verus!
