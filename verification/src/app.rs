//! The state of the dashboard and what a key press does to it.

use vstd::prelude::*;
use crate::country::DataType;
use crate::util::Event;

verus! {

/// The keys that the dashboard tells apart.
#[derive(Clone, Copy, Debug, PartialEq, Eq, Structural)]
pub enum Key {
    Char(char),
    Esc,
    Up,
    Down,
    Other,
}

/// What the dashboard has to do after an event.
#[derive(Clone, Copy, Debug, PartialEq, Eq, Structural)]
pub enum Action {
    /// Leave the dashboard.
    Quit,
    /// The selection moved: show the chart of the selected row.
    Select,
    /// Build the table anew in the order of this dataset, then show the chart
    /// of the selected row.
    Sort(DataType),
    /// Nothing to do.
    Ignore,
}

/// The state of the dashboard: the selected row of the table.
#[derive(Debug)]
pub struct App {
    pub selected: usize,
}

/// The row below `selected` in a table of `row_count` rows; below the last
/// row comes the first.
pub open spec fn row_below(selected: int, row_count: int) -> int {
    if selected + 1 > row_count - 1 {
        0
    } else {
        selected + 1
    }
}

/// The row above `selected` in a table of `row_count` rows; above the first
/// row comes the last.
pub open spec fn row_above(selected: int, row_count: int) -> int {
    if selected > 0 {
        selected - 1
    } else {
        row_count - 1
    }
}

/// The first row on screen when the table has `height` lines, five of which
/// hold no row: the table scrolls once the selection passes the rows it shows.
pub open spec fn first_visible_row(selected: int, height: int) -> int {
    if height >= 5 && selected >= height - 5 {
        selected - (height - 5)
    } else {
        0
    }
}

/// Whether the event moves the selection: the keys up and down do.
pub open spec fn moves_selection(event: Event<Key>) -> bool {
    event == Event::Input(Key::Down) || event == Event::Input(Key::Up)
}

/// What an event asks for; the selection is not touched here.
pub open spec fn action_of(event: Event<Key>) -> Action {
    match event {
        Event::Input(Key::Char('q')) => Action::Quit,
        Event::Input(Key::Esc) => Action::Quit,
        Event::Input(Key::Down) => Action::Select,
        Event::Input(Key::Up) => Action::Select,
        Event::Input(Key::Char('c')) => Action::Sort(DataType::Confirmed),
        Event::Input(Key::Char('d')) => Action::Sort(DataType::Deaths),
        Event::Input(Key::Char('r')) => Action::Sort(DataType::Recovered),
        _ => Action::Ignore,
    }
}

/// The selected row after an event.
pub open spec fn selection_after(selected: int, event: Event<Key>, row_count: int) -> int {
    match event {
        Event::Input(Key::Down) => row_below(selected, row_count),
        Event::Input(Key::Up) => row_above(selected, row_count),
        _ => selected,
    }
}

impl App {
    /// A dashboard with the first row selected.
    pub fn new() -> (app: App)
        ensures
            app.selected == 0,
    {
        App { selected: 0 }
    }

    /// Moves the selection one row down; from the last row it goes to the first.
    pub fn next(&mut self, row_count: usize)
        requires
            row_count > 0,
        ensures
            final(self).selected == row_below(old(self).selected as int, row_count as int),
            old(self).selected == row_count - 1 ==> final(self).selected == 0,
            final(self).selected < row_count,
    {
        if self.selected >= row_count - 1 {
            self.selected = 0;
        } else {
            self.selected = self.selected + 1;
        }
    }

    /// Moves the selection one row up; from the first row it goes to the last.
    pub fn previous(&mut self, row_count: usize)
        requires
            row_count > 0,
        ensures
            final(self).selected == row_above(old(self).selected as int, row_count as int),
            old(self).selected == 0 ==> final(self).selected == row_count - 1,
            old(self).selected < row_count ==> final(self).selected < row_count,
    {
        if self.selected > 0 {
            self.selected = self.selected - 1;
        } else {
            self.selected = row_count - 1;
        }
    }

    /// The first row to show in a table of `height` lines.
    pub fn scroll_offset(&self, height: u16) -> (offset: usize)
        ensures
            offset == first_visible_row(self.selected as int, height as int),
            offset <= self.selected,
    {
        if height >= 5 && self.selected >= (height - 5) as usize {
            self.selected - (height - 5) as usize
        } else {
            0
        }
    }

    /// Takes an event: moves the selection where the event asks for it, and
    /// says what is to be done next.
    pub fn on_event(&mut self, event: Event<Key>, row_count: usize) -> (action: Action)
        requires
            moves_selection(event) ==> row_count > 0,
        ensures
            action == action_of(event),
            final(self).selected == selection_after(
                old(self).selected as int,
                event,
                row_count as int,
            ),
    {
        match event {
            Event::Input(key) => match key {
                Key::Char(c) => {
                    if c == 'q' {
                        Action::Quit
                    } else if c == 'c' {
                        Action::Sort(DataType::Confirmed)
                    } else if c == 'd' {
                        Action::Sort(DataType::Deaths)
                    } else if c == 'r' {
                        Action::Sort(DataType::Recovered)
                    } else {
                        Action::Ignore
                    }
                },
                Key::Esc => Action::Quit,
                Key::Down => {
                    self.next(row_count);
                    Action::Select
                },
                Key::Up => {
                    self.previous(row_count);
                    Action::Select
                },
                Key::Other => Action::Ignore,
            },
            Event::Tick => Action::Ignore,
        }
    }
}

} // verus!
