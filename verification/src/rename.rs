use vstd::prelude::*;

use crate::text::opt_string_view;

verus! {

broadcast use vstd::string::group_string_axioms;

/// What happens to the rename dialog.
#[derive(Clone, Debug)]
pub enum RenameEvent {
    /// The container went away.
    ContainerDeleted,
    /// A response button was pressed.
    Response(String),
    /// The dialog is asked to close.
    CloseRequest,
    /// Escape was pressed.
    Escape,
    /// The name entry changed to this text.
    EntryChanged(String),
    /// The engine renamed the container.
    RenameSucceeded,
    /// The engine refused the new name with this message.
    RenameFailed(String),
}

/// What the dialog does in answer.
#[derive(Clone, Debug)]
pub enum RenameAction {
    /// Nothing visible.
    Nothing,
    /// Close the dialog.
    Close,
    /// Let a close request through.
    AllowClose,
    /// Hold a close request back and ask the engine to rename the container
    /// to the entered name.
    StartRename,
    /// Hold a close request back and close the dialog a moment later.
    CloseLater,
    /// Clear the error and enable or disable the rename response.
    EntryEdited { rename_enabled: bool },
    /// Show the engine's error message under the entry.
    ShowError(String),
}

/// The rename dialog's state: whether the rename is over, and the response
/// pressed last, not yet handled by a close request.
#[derive(Debug)]
pub struct RenameDialog {
    finished: bool,
    response: Option<String>,
}


impl RenameDialog {
    pub closed spec fn finished(&self) -> bool {
        self.finished
    }

    pub closed spec fn response(&self) -> Option<Seq<char>> {
        opt_string_view(self.response)
    }

    pub fn new() -> (dialog: Self)
        ensures
            !dialog.finished(),
            dialog.response() is None,
    {
        RenameDialog { finished: false, response: None }
    }

    /// Handles one event. The rename can end only once: a deletion of the
    /// container or a successful rename after the end is not expected.
    pub fn step(&mut self, event: RenameEvent) -> (action: RenameAction)
        requires
            old(self).finished() ==> !(event is ContainerDeleted) && !(event is RenameSucceeded),
        ensures
            match event {
                RenameEvent::ContainerDeleted => final(self).finished() && final(self).response() == old(self).response()
                    && action is Close,
                RenameEvent::Response(r) => final(self).finished() == old(self).finished() && final(self).response()
                    == Some(r@) && action is Nothing,
                RenameEvent::CloseRequest => (if old(self).finished() {
                    *final(self) == *old(self)
                } else {
                    final(self).finished() == old(self).finished() && final(self).response() is None
                }) && match close_request_outcome(old(self).finished(), old(self).response()) {
                    CloseOutcome::Allow => action is AllowClose,
                    CloseOutcome::Rename => action is StartRename,
                    CloseOutcome::Later => action is CloseLater,
                },
                RenameEvent::Escape => final(self).finished() == old(self).finished() && final(self).response() == Some(
                    "close"@,
                ) && action is Close,
                RenameEvent::EntryChanged(text) => *final(self) == *old(self) && (action matches RenameAction::EntryEdited {
                    rename_enabled,
                } && rename_enabled == (text@.len() > 0)),
                RenameEvent::RenameSucceeded => final(self).finished() && final(self).response() == old(self).response()
                    && action is Close,
                RenameEvent::RenameFailed(message) => *final(self) == *old(self) && (action matches RenameAction::ShowError(
                    m,
                ) && m@ == message@),
            },
    {
        match event {
            RenameEvent::ContainerDeleted => {
                self.finished = true;
                RenameAction::Close
            },
            RenameEvent::Response(r) => {
                self.response = Some(r);
                RenameAction::Nothing
            },
            RenameEvent::CloseRequest => {
                if self.finished {
                    return RenameAction::AllowClose;
                }
                let mut taken: Option<String> = None;
                std::mem::swap(&mut taken, &mut self.response);
                match taken {
                    Some(r) => {
                        if is_close(r.as_str()) {
                            RenameAction::AllowClose
                        } else {
                            RenameAction::StartRename
                        }
                    },
                    None => RenameAction::CloseLater,
                }
            },
            RenameEvent::Escape => {
                self.response = Some(String::from_str("close"));
                RenameAction::Close
            },
            RenameEvent::EntryChanged(text) => RenameAction::EntryEdited { rename_enabled: !text.as_str().is_empty() },
            RenameEvent::RenameSucceeded => {
                self.finished = true;
                RenameAction::Close
            },
            RenameEvent::RenameFailed(message) => RenameAction::ShowError(message),
        }
    }
}

fn is_close(response: &str) -> (close: bool)
    ensures
        close <==> response@ == "close"@,
{
    proof {
        reveal_strlit("close");
    }
    let chars = crate::text::chars_of(response);
    if chars.len() == 5 && chars[0] == 'c' && chars[1] == 'l' && chars[2] == 'o' && chars[3] == 's' && chars[4] == 'e' {
        assert(response@ =~= "close"@);
        true
    } else {
        assert(response@ != "close"@) by {
            if response@ == "close"@ {
                assert(response@[0] == 'c' && response@[1] == 'l' && response@[2] == 'o' && response@[3] == 's' && response@[4] == 'e');
            }
        }
        false
    }
}

/// How the dialog answers a close request.
#[derive(Clone, Copy, Debug, PartialEq, Eq, Structural)]
pub enum CloseOutcome {
    /// The dialog closes.
    Allow,
    /// The dialog stays while the container is renamed.
    Rename,
    /// The dialog stays and closes a moment later.
    Later,
}

/// A close request closes a dialog whose rename is over, or one whose last
/// response was "close"; after any other response it renames; with no
/// response it closes a moment later.
pub open spec fn close_request_outcome(finished: bool, response: Option<Seq<char>>) -> CloseOutcome {
    if finished {
        CloseOutcome::Allow
    } else {
        match response {
            Some(r) => if r == "close"@ {
                CloseOutcome::Allow
            } else {
                CloseOutcome::Rename
            },
            None => CloseOutcome::Later,
        }
    }
}

/// Escape always closes the dialog: it leaves "close" as the pressed
/// response, and with that response the close request that follows is let
/// through, whether the rename is over or not.
pub proof fn lemma_escape_closes(finished: bool)
    ensures
        close_request_outcome(finished, Some("close"@)) == CloseOutcome::Allow,
{
}

/// A close request never renames twice: it consumes the pressed response,
/// so a second request without a new response closes a moment later.
pub proof fn lemma_close_request_consumes_response(finished: bool)
    ensures
        !finished ==> close_request_outcome(finished, None) == CloseOutcome::Later,
        finished ==> close_request_outcome(finished, None) == CloseOutcome::Allow,
{
}

} // verus!
