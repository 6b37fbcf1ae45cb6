//! The indicator that shows while the pointer is with a peer: when its
//! process is to be started and when it is to be ended.

use vstd::prelude::*;

verus! {

/// What is to be done with the indicator's process.
#[derive(Debug, Clone, Copy, PartialEq, Eq, Structural)]
pub enum GuiCommand {
    /// Start the process.
    Spawn,
    /// End the process.
    Kill,
    /// Leave things as they are.
    Nothing,
}

/// What a request asks for: `Some(true)` asks for the indicator to show,
/// `Some(false)` for it to go, `None` is a request that was lost. The process
/// is started only while none runs and ended only while one runs.
pub open spec fn spec_command(running: bool, request: Option<bool>) -> GuiCommand {
    match request {
        Some(true) => if running {
            GuiCommand::Nothing
        } else {
            GuiCommand::Spawn
        },
        Some(false) => if running {
            GuiCommand::Kill
        } else {
            GuiCommand::Nothing
        },
        None => GuiCommand::Nothing,
    }
}

/// Whether the process runs once a command has been carried out.
pub open spec fn spec_after(running: bool, command: GuiCommand) -> bool {
    match command {
        GuiCommand::Spawn => true,
        GuiCommand::Kill => false,
        GuiCommand::Nothing => running,
    }
}

/// Keeps track of the indicator's process.
#[derive(Debug)]
pub struct GUIProcessManager {
    running: bool,
}

impl View for GUIProcessManager {
    type V = bool;

    closed spec fn view(&self) -> bool {
        self.running
    }
}

impl GUIProcessManager {
    /// A manager whose process does not run.
    pub fn new() -> (manager: GUIProcessManager)
        ensures
            !manager@,
    {
        GUIProcessManager { running: false }
    }

    /// What is to be done for the indicator to show.
    pub fn init_ui(&self) -> (command: GuiCommand)
        ensures
            command == spec_command(self@, Some(true)),
    {
        if self.running {
            GuiCommand::Nothing
        } else {
            GuiCommand::Spawn
        }
    }

    /// What is to be done for the indicator to go.
    pub fn quit_ui(&self) -> (command: GuiCommand)
        ensures
            command == spec_command(self@, Some(false)),
    {
        if self.running {
            GuiCommand::Kill
        } else {
            GuiCommand::Nothing
        }
    }

    /// What is to be done for a request.
    pub fn listen(&self, request: Option<bool>) -> (command: GuiCommand)
        ensures
            command == spec_command(self@, request),
    {
        match request {
            Some(true) => self.init_ui(),
            Some(false) => self.quit_ui(),
            None => GuiCommand::Nothing,
        }
    }

    /// Records that a command has been carried out.
    pub fn done(&mut self, command: GuiCommand)
        ensures
            final(self)@ == spec_after(old(self)@, command),
    {
        match command {
            GuiCommand::Spawn => {
                self.running = true;
            },
            GuiCommand::Kill => {
                self.running = false;
            },
            GuiCommand::Nothing => {},
        }
    }
}

/// Carrying out what a request asks for leaves the indicator as the request
/// wants it, and asking again then asks for nothing.
pub proof fn law_requests_settle(running: bool, show: bool)
    ensures
        spec_after(running, spec_command(running, Some(show))) == show,
        spec_command(show, Some(show)) == GuiCommand::Nothing,
{
}

} // verus!
