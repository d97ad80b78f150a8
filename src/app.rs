//! The dashboard's state: the current records and overview, the selected
//! record, and which panel and input mode are active. The terminal layer
//! feeds it actions and fresh tool output.
use vstd::prelude::*;

use crate::extract::{extract, jobs_from_output};
use crate::inventory::{inventory_rows, parse_inventory, NodeCapacity};
use crate::overview::{get_cluster_overview, overview_of, ClusterOverview};
use crate::schema::Job;

verus! {

/// A user request, decoded from a key press.
#[derive(Clone, Copy, Debug, PartialEq, Eq, Structural)]
pub enum Action {
    Quit,
    Down,
    Up,
    Home,
    End,
    PageDown,
    PageUp,
    ToggleHelp,
    ResetView,
    ToggleFocus,
    ToggleOverview,
}

/// The panel shown beside the job list.
#[derive(Clone, Copy, Debug, PartialEq, Eq, Structural)]
pub enum ViewState {
    Details,
    Help,
    Overview,
}

/// Whether keys go to the list or to the live-filter editor.
#[derive(Clone, Copy, Debug, PartialEq, Eq, Structural)]
pub enum EditorState {
    Normal,
    Editing,
}

/// The dashboard's state between two frames.
pub struct App {
    pub should_quit: bool,
    pub jobs: Vec<Job>,
    pub selected: Option<usize>,
    pub view_state: ViewState,
    pub editor_state: EditorState,
    pub overview: ClusterOverview,
}

/// The selection after moving one row down, wrapping to the top.
pub open spec fn next_index(sel: Option<usize>, len: nat) -> Option<usize> {
    if len == 0 {
        None
    } else {
        match sel {
            Some(i) => if i >= len - 1 {
                Some(0usize)
            } else {
                Some((i + 1) as usize)
            },
            None => Some(0usize),
        }
    }
}

/// The selection after moving one row up, wrapping to the bottom.
pub open spec fn previous_index(sel: Option<usize>, len: nat) -> Option<usize> {
    if len == 0 {
        None
    } else {
        match sel {
            Some(i) => if i == 0 {
                Some((len - 1) as usize)
            } else {
                Some((i - 1) as usize)
            },
            None => Some(0usize),
        }
    }
}

/// The selection after moving five rows down, stopping at the last row.
pub open spec fn down_5_index(sel: Option<usize>, len: nat) -> Option<usize> {
    if len == 0 {
        None
    } else {
        match sel {
            Some(i) => if i + 5 >= len {
                Some((len - 1) as usize)
            } else {
                Some((i + 5) as usize)
            },
            None => Some(0usize),
        }
    }
}

/// The selection after moving five rows up, stopping at the first row.
pub open spec fn up_5_index(sel: Option<usize>, len: nat) -> Option<usize> {
    if len == 0 {
        None
    } else {
        match sel {
            Some(i) => if i <= 5 {
                Some(0usize)
            } else {
                Some((i - 5) as usize)
            },
            None => Some(0usize),
        }
    }
}

/// The selection on the first row, if there is one.
pub open spec fn home_index(len: nat) -> Option<usize> {
    if len == 0 {
        None
    } else {
        Some(0usize)
    }
}

/// The selection on the last row, if there is one.
pub open spec fn end_index(len: nat) -> Option<usize> {
    if len == 0 {
        None
    } else {
        Some((len - 1) as usize)
    }
}

impl App {
    /// Whether the selection points at an existing record.
    pub open spec fn selection_in_range(&self) -> bool {
        match self.selected {
            Some(i) => i < self.jobs.len(),
            None => true,
        }
    }

    /// The dashboard for a first snapshot: every record of `job_output`, the
    /// overview against `inventory_output`, the first record selected, the
    /// overview panel shown and the list focused.
    pub fn new(job_output: &str, inventory_output: &str) -> (r: App)
        ensures
            r.jobs@.map_values(|j: Job| j@) == extract(job_output@, Seq::<char>::empty()),
            overview_of(r.overview, r.jobs@.map_values(|j: Job| j@), inventory_rows(inventory_output@)),
            r.selected == home_index(r.jobs.len() as nat),
            r.view_state == ViewState::Overview,
            r.editor_state == EditorState::Normal,
            !r.should_quit,
    {
        let jobs = jobs_from_output(job_output, "");
        proof {
            assert(""@ =~= Seq::<char>::empty()) by {
                reveal_strlit("");
            }
        }
        let rows = parse_inventory(inventory_output);
        let overview = get_cluster_overview(&jobs, &rows);
        let selected = if jobs.len() > 0 {
            Some(0)
        } else {
            None
        };
        App {
            should_quit: false,
            jobs,
            selected,
            view_state: ViewState::Overview,
            editor_state: EditorState::Normal,
            overview,
        }
    }

    /// Applies one user action.
    pub fn update(&mut self, action: Option<Action>)
        ensures
            final(self).jobs@ == old(self).jobs@,
            final(self).overview == old(self).overview,
            final(self).should_quit == (old(self).should_quit || action == Some(Action::Quit)),
            action == Some(Action::Down) ==> final(self).selected == next_index(old(self).selected, old(self).jobs.len() as nat),
            action == Some(Action::Up) ==> final(self).selected == previous_index(old(self).selected, old(self).jobs.len() as nat),
            action == Some(Action::PageDown) ==> final(self).selected == down_5_index(old(self).selected, old(self).jobs.len() as nat),
            action == Some(Action::PageUp) ==> final(self).selected == up_5_index(old(self).selected, old(self).jobs.len() as nat),
            action == Some(Action::Home) ==> final(self).selected == home_index(old(self).jobs.len() as nat),
            action == Some(Action::End) ==> final(self).selected == end_index(old(self).jobs.len() as nat),
            !(action matches Some(Action::Down) || action matches Some(Action::Up) || action matches Some(Action::PageDown)
                || action matches Some(Action::PageUp) || action matches Some(Action::Home) || action matches Some(Action::End))
                ==> final(self).selected == old(self).selected,
            action == Some(Action::ToggleHelp) ==> final(self).view_state == (if old(self).view_state == ViewState::Help {
                ViewState::Details
            } else {
                ViewState::Help
            }),
            action == Some(Action::ToggleOverview) ==> final(self).view_state == (if old(self).view_state == ViewState::Overview {
                ViewState::Details
            } else {
                ViewState::Overview
            }),
            action == Some(Action::ResetView) ==> final(self).view_state == ViewState::Details
                && final(self).editor_state == EditorState::Normal,
            action == Some(Action::ToggleFocus) ==> final(self).editor_state == (if old(self).editor_state == EditorState::Normal {
                EditorState::Editing
            } else {
                EditorState::Normal
            }),
            action != Some(Action::ResetView) && action != Some(Action::ToggleFocus) ==> final(self).editor_state
                == old(self).editor_state,
            (action is None || action == Some(Action::Quit)) ==> final(self).view_state == old(self).view_state,
            (action matches Some(Action::Down) || action matches Some(Action::Up) || action matches Some(Action::PageDown)
                || action matches Some(Action::PageUp) || action matches Some(Action::Home) || action matches Some(Action::End))
                ==> final(self).view_state == ViewState::Details,
    {
        match action {
            Some(Action::Quit) => self.should_quit = true,
            Some(Action::Up) => self.previous(),
            Some(Action::Down) => self.next(),
            Some(Action::Home) => self.home(),
            Some(Action::End) => self.end(),
            Some(Action::PageDown) => self.down_5(),
            Some(Action::PageUp) => self.up_5(),
            Some(Action::ToggleHelp) => self.toggle_help(),
            Some(Action::ResetView) => self.reset_view(),
            Some(Action::ToggleOverview) => self.toggle_overview(),
            Some(Action::ToggleFocus) => self.toggle_focus(),
            None => {},
        }
    }

    /// Replaces the records and the overview with those of a fresh snapshot
    /// under the live filter `filter_re`, and keeps the selection on an
    /// existing record: none when there are no records, the last one when it
    /// pointed past the end, the first one when there was none.
    pub fn tick(&mut self, job_output: &str, filter_re: &str, inventory_output: &str)
        ensures
            final(self).jobs@.map_values(|j: Job| j@) == extract(job_output@, filter_re@),
            overview_of(final(self).overview, final(self).jobs@.map_values(|j: Job| j@), inventory_rows(inventory_output@)),
            final(self).selected == (if final(self).jobs.len() == 0 {
                None
            } else {
                match old(self).selected {
                    None => Some(0usize),
                    Some(i) => if i >= final(self).jobs.len() {
                        Some((final(self).jobs.len() - 1) as usize)
                    } else {
                        Some(i)
                    },
                }
            }),
            final(self).view_state == (if final(self).jobs.len() > 0 && (old(self).selected is None || old(self).selected->0 >= final(self).jobs.len()) {
                ViewState::Details
            } else {
                old(self).view_state
            }),
            final(self).editor_state == old(self).editor_state,
            final(self).should_quit == old(self).should_quit,
            final(self).selection_in_range(),
    {
        self.jobs = jobs_from_output(job_output, filter_re);
        let rows: Vec<NodeCapacity> = parse_inventory(inventory_output);
        self.overview = get_cluster_overview(&self.jobs, &rows);
        if self.jobs.len() == 0 {
            self.selected = None;
        } else {
            match self.selected {
                None => self.home(),
                Some(i) => {
                    if i > self.jobs.len() - 1 {
                        self.end();
                    }
                },
            }
        }
    }

    /// Switches between the overview panel and the details panel.
    pub fn toggle_overview(&mut self)
        ensures
            final(self).view_state == (if old(self).view_state == ViewState::Overview {
                ViewState::Details
            } else {
                ViewState::Overview
            }),
            final(self).jobs@ == old(self).jobs@,
            final(self).selected == old(self).selected,
            final(self).editor_state == old(self).editor_state,
            final(self).should_quit == old(self).should_quit,
            final(self).overview == old(self).overview,
    {
        match self.view_state {
            ViewState::Overview => self.view_state = ViewState::Details,
            _ => self.view_state = ViewState::Overview,
        }
    }

    /// Selects the next record, wrapping to the first, and shows its details.
    pub fn next(&mut self)
        ensures
            final(self).selected == next_index(old(self).selected, old(self).jobs.len() as nat),
            final(self).view_state == ViewState::Details,
            final(self).jobs@ == old(self).jobs@,
            final(self).editor_state == old(self).editor_state,
            final(self).should_quit == old(self).should_quit,
            final(self).overview == old(self).overview,
    {
        self.view_state = ViewState::Details;
        if self.jobs.len() == 0 {
            self.selected = None;
            return;
        }
        let i = match self.selected {
            Some(i) => {
                if i >= self.jobs.len() - 1 {
                    0
                } else {
                    i + 1
                }
            },
            None => 0,
        };
        self.selected = Some(i);
    }

    /// Selects the previous record, wrapping to the last, and shows its details.
    pub fn previous(&mut self)
        ensures
            final(self).selected == previous_index(old(self).selected, old(self).jobs.len() as nat),
            final(self).view_state == ViewState::Details,
            final(self).jobs@ == old(self).jobs@,
            final(self).editor_state == old(self).editor_state,
            final(self).should_quit == old(self).should_quit,
            final(self).overview == old(self).overview,
    {
        self.view_state = ViewState::Details;
        if self.jobs.len() == 0 {
            self.selected = None;
            return;
        }
        let i = match self.selected {
            Some(i) => {
                if i == 0 {
                    self.jobs.len() - 1
                } else {
                    i - 1
                }
            },
            None => 0,
        };
        self.selected = Some(i);
    }

    /// Moves the selection five records down, stopping at the last, and
    /// shows its details.
    pub fn down_5(&mut self)
        ensures
            final(self).selected == down_5_index(old(self).selected, old(self).jobs.len() as nat),
            final(self).view_state == ViewState::Details,
            final(self).jobs@ == old(self).jobs@,
            final(self).editor_state == old(self).editor_state,
            final(self).should_quit == old(self).should_quit,
            final(self).overview == old(self).overview,
    {
        self.view_state = ViewState::Details;
        if self.jobs.len() == 0 {
            self.selected = None;
            return;
        }
        let i = match self.selected {
            Some(i) => {
                if i >= self.jobs.len() || self.jobs.len() - i <= 5 {
                    self.jobs.len() - 1
                } else {
                    i + 5
                }
            },
            None => 0,
        };
        self.selected = Some(i);
    }

    /// Moves the selection five records up, stopping at the first, and shows
    /// its details.
    pub fn up_5(&mut self)
        ensures
            final(self).selected == up_5_index(old(self).selected, old(self).jobs.len() as nat),
            final(self).view_state == ViewState::Details,
            final(self).jobs@ == old(self).jobs@,
            final(self).editor_state == old(self).editor_state,
            final(self).should_quit == old(self).should_quit,
            final(self).overview == old(self).overview,
    {
        self.view_state = ViewState::Details;
        if self.jobs.len() == 0 {
            self.selected = None;
            return;
        }
        let i = match self.selected {
            Some(i) => {
                if i <= 5 {
                    0
                } else {
                    i - 5
                }
            },
            None => 0,
        };
        self.selected = Some(i);
    }

    /// Selects the first record and shows its details.
    pub fn home(&mut self)
        ensures
            final(self).selected == home_index(old(self).jobs.len() as nat),
            final(self).view_state == ViewState::Details,
            final(self).jobs@ == old(self).jobs@,
            final(self).overview == old(self).overview,
            final(self).editor_state == old(self).editor_state,
            final(self).should_quit == old(self).should_quit,
    {
        self.view_state = ViewState::Details;
        if self.jobs.len() == 0 {
            self.selected = None;
            return;
        }
        self.selected = Some(0);
    }

    /// Selects the last record and shows its details.
    pub fn end(&mut self)
        ensures
            final(self).selected == end_index(old(self).jobs.len() as nat),
            final(self).view_state == ViewState::Details,
            final(self).jobs@ == old(self).jobs@,
            final(self).overview == old(self).overview,
            final(self).editor_state == old(self).editor_state,
            final(self).should_quit == old(self).should_quit,
    {
        self.view_state = ViewState::Details;
        if self.jobs.len() == 0 {
            self.selected = None;
            return;
        }
        self.selected = Some(self.jobs.len() - 1);
    }

    /// Switches between the help panel and the details panel.
    pub fn toggle_help(&mut self)
        ensures
            final(self).view_state == (if old(self).view_state == ViewState::Help {
                ViewState::Details
            } else {
                ViewState::Help
            }),
            final(self).jobs@ == old(self).jobs@,
            final(self).selected == old(self).selected,
            final(self).editor_state == old(self).editor_state,
            final(self).should_quit == old(self).should_quit,
            final(self).overview == old(self).overview,
    {
        match self.view_state {
            ViewState::Help => self.view_state = ViewState::Details,
            _ => self.view_state = ViewState::Help,
        }
    }

    /// Shows the details panel and gives the keys back to the list.
    pub fn reset_view(&mut self)
        ensures
            final(self).view_state == ViewState::Details,
            final(self).editor_state == EditorState::Normal,
            final(self).jobs@ == old(self).jobs@,
            final(self).selected == old(self).selected,
            final(self).should_quit == old(self).should_quit,
            final(self).overview == old(self).overview,
    {
        self.view_state = ViewState::Details;
        self.editor_state = EditorState::Normal;
    }

    /// Moves the keys between the list and the live-filter editor.
    pub fn toggle_focus(&mut self)
        ensures
            final(self).editor_state == (if old(self).editor_state == EditorState::Normal {
                EditorState::Editing
            } else {
                EditorState::Normal
            }),
            final(self).view_state == old(self).view_state,
            final(self).jobs@ == old(self).jobs@,
            final(self).selected == old(self).selected,
            final(self).should_quit == old(self).should_quit,
            final(self).overview == old(self).overview,
    {
        match self.editor_state {
            EditorState::Normal => self.editor_state = EditorState::Editing,
            EditorState::Editing => self.editor_state = EditorState::Normal,
        }
    }
}

} // verus!
