//! The start window: the log file, the custom player order, and whether to
//! replay an old log.
use vstd::prelude::*;

verus! {

/// The settings the start window collects.
pub struct App {
    pub log_file: String,
    pub player_list: String,
    pub replay: bool,
}

/// What the user did during one frame of the start window.
pub struct FrameInput {
    /// The log-file field was edited to this text.
    pub log_file_edit: Option<String>,
    /// The player-list field was edited to this text.
    pub player_list_edit: Option<String>,
    /// The replay box was toggled to this value.
    pub replay_toggle: Option<bool>,
    /// The start button was clicked.
    pub start_clicked: bool,
}

impl App {
    /// Empty fields, live mode.
    pub fn new() -> (a: Self)
        ensures
            a.log_file@ == Seq::<char>::empty(),
            a.player_list@ == Seq::<char>::empty(),
            !a.replay,
    {
        App { log_file: String::new(), player_list: String::new(), replay: false }
    }

    /// Takes in one frame: every edited field takes its new value, the
    /// others keep theirs; returns whether the window closes (the start
    /// button was clicked).
    pub fn update(&mut self, input: FrameInput) -> (close: bool)
        ensures
            final(self).log_file@ == match input.log_file_edit {
                Some(t) => t@,
                None => old(self).log_file@,
            },
            final(self).player_list@ == match input.player_list_edit {
                Some(t) => t@,
                None => old(self).player_list@,
            },
            final(self).replay == match input.replay_toggle {
                Some(b) => b,
                None => old(self).replay,
            },
            close == input.start_clicked,
    {
        if let Some(t) = input.log_file_edit {
            self.log_file = t;
        }
        if let Some(t) = input.player_list_edit {
            self.player_list = t;
        }
        if let Some(b) = input.replay_toggle {
            self.replay = b;
        }
        input.start_clicked
    }
}

} // verus!
