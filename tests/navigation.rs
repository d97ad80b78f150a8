use lazyslurm::app::{Action, App, EditorState, ViewState};

fn output(n: usize) -> String {
    let mut text = String::new();
    for i in 0..n {
        for f in 0..22 {
            if f == 1 {
                text.push_str("RUNNING");
            } else {
                text.push_str(&format!("j{}f{}", i, f));
            }
            text.push_str("###");
        }
        text.push('\n');
    }
    text
}

#[test]
fn new_selects_first_record_and_shows_overview() {
    let app = App::new(&output(3), "");
    assert_eq!(app.jobs.len(), 3);
    assert_eq!(app.selected, Some(0));
    assert_eq!(app.view_state, ViewState::Overview);
    assert_eq!(app.editor_state, EditorState::Normal);
    assert_eq!(app.overview.jobs_running, 3);
}

#[test]
fn new_without_records_selects_nothing() {
    let app = App::new("", "");
    assert_eq!(app.selected, None);
}

#[test]
fn next_and_previous_wrap() {
    let mut app = App::new(&output(3), "");
    app.update(Some(Action::Up));
    assert_eq!(app.selected, Some(2));
    assert_eq!(app.view_state, ViewState::Details);
    app.update(Some(Action::Down));
    assert_eq!(app.selected, Some(0));
    app.update(Some(Action::Down));
    assert_eq!(app.selected, Some(1));
}

#[test]
fn page_moves_stop_at_the_ends() {
    let mut app = App::new(&output(12), "");
    app.update(Some(Action::PageDown));
    assert_eq!(app.selected, Some(5));
    app.update(Some(Action::PageDown));
    assert_eq!(app.selected, Some(10));
    app.update(Some(Action::PageDown));
    assert_eq!(app.selected, Some(11));
    app.update(Some(Action::PageUp));
    assert_eq!(app.selected, Some(6));
    app.update(Some(Action::PageUp));
    assert_eq!(app.selected, Some(1));
    app.update(Some(Action::PageUp));
    assert_eq!(app.selected, Some(0));
}

#[test]
fn page_down_on_short_list() {
    let mut app = App::new(&output(3), "");
    app.update(Some(Action::PageDown));
    assert_eq!(app.selected, Some(2));
}

#[test]
fn home_and_end() {
    let mut app = App::new(&output(4), "");
    app.update(Some(Action::End));
    assert_eq!(app.selected, Some(3));
    app.update(Some(Action::Home));
    assert_eq!(app.selected, Some(0));
}

#[test]
fn toggles_and_quit() {
    let mut app = App::new(&output(1), "");
    app.update(Some(Action::ToggleOverview));
    assert_eq!(app.view_state, ViewState::Details);
    app.update(Some(Action::ToggleHelp));
    assert_eq!(app.view_state, ViewState::Help);
    app.update(Some(Action::ToggleHelp));
    assert_eq!(app.view_state, ViewState::Details);
    app.update(Some(Action::ToggleFocus));
    assert_eq!(app.editor_state, EditorState::Editing);
    app.update(Some(Action::ResetView));
    assert_eq!(app.editor_state, EditorState::Normal);
    assert!(!app.should_quit);
    app.update(None);
    assert!(!app.should_quit);
    app.update(Some(Action::Quit));
    assert!(app.should_quit);
}

#[test]
fn tick_clamps_selection() {
    let mut app = App::new(&output(5), "");
    app.update(Some(Action::End));
    assert_eq!(app.selected, Some(4));
    app.tick(&output(2), "", "");
    assert_eq!(app.jobs.len(), 2);
    assert_eq!(app.selected, Some(1));
    app.tick("", "", "");
    assert_eq!(app.selected, None);
    app.tick(&output(3), "", "");
    assert_eq!(app.selected, Some(0));
}

#[test]
fn tick_applies_filter() {
    let mut app = App::new(&output(3), "");
    app.tick(&output(3), "J1F0", "");
    assert_eq!(app.jobs.len(), 1);
    assert_eq!(app.jobs[0].StateCompact, "j1f0");
}
