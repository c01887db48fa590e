use vstd::prelude::*;

use crate::status::ContainerStatus;
use crate::text::text_equals;

verus! {

/// A lifecycle request sent to the engine for one container.
#[derive(Clone, Copy, Debug, PartialEq, Eq, Structural)]
pub enum LifecycleCommand {
    Start,
    Stop,
    Kill,
    Restart,
    Pause,
    Resume,
    Delete,
    ForceDelete,
}

/// Which entries of a container's action menu are enabled.
#[derive(Clone, Copy, Debug, PartialEq, Eq, Structural)]
pub struct MenuActions {
    pub start: bool,
    pub stop: bool,
    pub force_stop: bool,
    pub restart: bool,
    pub force_restart: bool,
    pub resume: bool,
    pub pause: bool,
    pub delete: bool,
    pub force_delete: bool,
}

/// A container that has stopped or was never started.
pub open spec fn is_at_rest(status: ContainerStatus) -> bool {
    status == ContainerStatus::Configured || status == ContainerStatus::Created || status
        == ContainerStatus::Exited || status == ContainerStatus::Dead || status == ContainerStatus::Stopped
}

/// The menu table: a running container can be stopped, restarted, paused and
/// deleted by force; a paused one resumed or deleted by force; a container at
/// rest started or deleted; in a transitional state nothing is offered.
pub open spec fn spec_menu_actions(status: ContainerStatus) -> MenuActions {
    if status == ContainerStatus::Running {
        MenuActions {
            start: false,
            stop: true,
            force_stop: true,
            restart: true,
            force_restart: true,
            resume: false,
            pause: true,
            delete: false,
            force_delete: true,
        }
    } else if status == ContainerStatus::Paused {
        MenuActions {
            start: false,
            stop: false,
            force_stop: false,
            restart: false,
            force_restart: false,
            resume: true,
            pause: false,
            delete: false,
            force_delete: true,
        }
    } else if is_at_rest(status) {
        MenuActions {
            start: true,
            stop: false,
            force_stop: false,
            restart: false,
            force_restart: false,
            resume: false,
            pause: false,
            delete: true,
            force_delete: false,
        }
    } else {
        MenuActions {
            start: false,
            stop: false,
            force_stop: false,
            restart: false,
            force_restart: false,
            resume: false,
            pause: false,
            delete: false,
            force_delete: false,
        }
    }
}

/// The enabled menu entries for a container in the given state.
pub fn menu_actions(status: ContainerStatus) -> (actions: MenuActions)
    ensures
        actions == spec_menu_actions(status),
{
    match status {
        ContainerStatus::Running => MenuActions {
            start: false,
            stop: true,
            force_stop: true,
            restart: true,
            force_restart: true,
            resume: false,
            pause: true,
            delete: false,
            force_delete: true,
        },
        ContainerStatus::Paused => MenuActions {
            start: false,
            stop: false,
            force_stop: false,
            restart: false,
            force_restart: false,
            resume: true,
            pause: false,
            delete: false,
            force_delete: true,
        },
        ContainerStatus::Configured | ContainerStatus::Created | ContainerStatus::Exited
        | ContainerStatus::Dead | ContainerStatus::Stopped => MenuActions {
            start: true,
            stop: false,
            force_stop: false,
            restart: false,
            force_restart: false,
            resume: false,
            pause: false,
            delete: true,
            force_delete: false,
        },
        _ => MenuActions {
            start: false,
            stop: false,
            force_stop: false,
            restart: false,
            force_restart: false,
            resume: false,
            pause: false,
            delete: false,
            force_delete: false,
        },
    }
}

/// The menu never offers two requests that contradict each other: starting
/// and stopping, pausing and resuming, or a plain and a forced deletion; a
/// container that is not paused cannot be resumed, and a plain deletion is
/// offered only for a container at rest.
pub proof fn lemma_menu_actions_consistent(status: ContainerStatus)
    ensures
        !(spec_menu_actions(status).start && spec_menu_actions(status).stop),
        !(spec_menu_actions(status).pause && spec_menu_actions(status).resume),
        !(spec_menu_actions(status).delete && spec_menu_actions(status).force_delete),
        spec_menu_actions(status).resume <==> status == ContainerStatus::Paused,
        spec_menu_actions(status).delete <==> is_at_rest(status),
        spec_menu_actions(status).stop == spec_menu_actions(status).force_stop,
        spec_menu_actions(status).restart == spec_menu_actions(status).force_restart,
{
}

/// What each state's menu offers: only a running container can be stopped,
/// restarted or paused; a paused one offers exactly resuming and a forced
/// deletion; starting and a plain deletion are for a container at rest; a
/// forced deletion for one that runs or is paused; a container in a
/// transitional state offers nothing.
pub proof fn lemma_menu_actions_by_state(status: ContainerStatus)
    ensures
        ({
            let m = spec_menu_actions(status);
            &&& (m.stop || m.force_stop || m.restart || m.force_restart || m.pause) ==> status
                == ContainerStatus::Running
            &&& status == ContainerStatus::Running ==> m.stop && m.force_stop && m.restart && m.force_restart
                && m.pause && m.force_delete && !m.start && !m.resume && !m.delete
            &&& status == ContainerStatus::Paused ==> m == MenuActions {
                start: false,
                stop: false,
                force_stop: false,
                restart: false,
                force_restart: false,
                resume: true,
                pause: false,
                delete: false,
                force_delete: true,
            }
            &&& (m.start || m.delete) <==> is_at_rest(status)
            &&& m.force_delete <==> (status == ContainerStatus::Running || status == ContainerStatus::Paused)
            &&& !(status == ContainerStatus::Running || status == ContainerStatus::Paused || is_at_rest(status))
                ==> !(m.start || m.stop || m.force_stop || m.restart || m.force_restart || m.resume || m.pause
                || m.delete || m.force_delete)
        }),
{
}

/// What the engine reports a container is able to do.
#[derive(Clone, Copy, Debug, PartialEq, Eq, Structural)]
pub struct Capabilities {
    pub can_start: bool,
    pub can_resume: bool,
    pub can_stop: bool,
    pub can_kill: bool,
    pub can_restart: bool,
    pub can_pause: bool,
    pub can_delete: bool,
}

/// The enabled entries of a container's compact menu: killing is offered
/// whenever stopping is.
pub open spec fn spec_compact_menu_actions(caps: Capabilities) -> MenuActions {
    MenuActions {
        start: caps.can_start,
        stop: caps.can_stop,
        force_stop: caps.can_stop,
        restart: caps.can_restart,
        force_restart: false,
        resume: caps.can_resume,
        pause: caps.can_pause,
        delete: caps.can_delete,
        force_delete: false,
    }
}

pub fn compact_menu_actions(caps: Capabilities) -> (actions: MenuActions)
    ensures
        actions == spec_compact_menu_actions(caps),
{
    MenuActions {
        start: caps.can_start,
        stop: caps.can_stop,
        force_stop: caps.can_stop,
        restart: caps.can_restart,
        force_restart: false,
        resume: caps.can_resume,
        pause: caps.can_pause,
        delete: caps.can_delete,
        force_delete: false,
    }
}

/// The state of a container card's controls.
#[derive(Clone, Copy, Debug, PartialEq, Eq, Structural)]
pub struct CardControls {
    /// Whether the action area reacts to input.
    pub sensitive: bool,
    pub start_or_resume_visible: bool,
    pub stop_visible: bool,
    pub spinner_visible: bool,
    pub start_or_resume_enabled: bool,
    pub stop_enabled: bool,
    pub kill_enabled: bool,
    pub restart_enabled: bool,
    pub pause_enabled: bool,
    pub delete_enabled: bool,
}

pub open spec fn spec_card_controls(action_ongoing: bool, selection_mode: bool, caps: Capabilities) -> CardControls {
    let can_start_or_resume = caps.can_start || caps.can_resume;
    let start_visible = !action_ongoing && can_start_or_resume;
    let stop_visible = !action_ongoing && caps.can_stop;
    CardControls {
        sensitive: !action_ongoing && !selection_mode,
        start_or_resume_visible: start_visible,
        stop_visible: stop_visible,
        spinner_visible: action_ongoing || (!start_visible && !stop_visible),
        start_or_resume_enabled: can_start_or_resume,
        stop_enabled: caps.can_stop,
        kill_enabled: caps.can_kill,
        restart_enabled: caps.can_restart,
        pause_enabled: caps.can_pause,
        delete_enabled: caps.can_delete,
    }
}

/// Updates a card's controls: while a request is under way only the spinner
/// shows; otherwise the start (or resume) and the stop buttons show when
/// they apply, and the spinner stands in when neither does.
pub fn card_controls(action_ongoing: bool, selection_mode: bool, caps: Capabilities) -> (controls: CardControls)
    ensures
        controls == spec_card_controls(action_ongoing, selection_mode, caps),
{
    let can_start_or_resume = caps.can_start || caps.can_resume;
    let start_visible = !action_ongoing && can_start_or_resume;
    let stop_visible = !action_ongoing && caps.can_stop;
    CardControls {
        sensitive: !action_ongoing && !selection_mode,
        start_or_resume_visible: start_visible,
        stop_visible: stop_visible,
        spinner_visible: action_ongoing || (!start_visible && !stop_visible),
        start_or_resume_enabled: can_start_or_resume,
        stop_enabled: caps.can_stop,
        kill_enabled: caps.can_kill,
        restart_enabled: caps.can_restart,
        pause_enabled: caps.can_pause,
        delete_enabled: caps.can_delete,
    }
}

/// A card always shows at least one of its three buttons, and never a
/// lifecycle button while a request is under way.
pub proof fn lemma_card_always_shows_a_button(action_ongoing: bool, selection_mode: bool, caps: Capabilities)
    ensures
        ({
            let c = spec_card_controls(action_ongoing, selection_mode, caps);
            &&& c.start_or_resume_visible || c.stop_visible || c.spinner_visible
            &&& action_ongoing ==> !c.start_or_resume_visible && !c.stop_visible && c.spinner_visible
            &&& c.start_or_resume_visible ==> c.start_or_resume_enabled
            &&& c.stop_visible ==> c.stop_enabled
        }),
{
}

/// The request behind a "start or resume" button: start when the container
/// can be started, resume otherwise.
pub fn start_or_resume(can_start: bool) -> (command: LifecycleCommand)
    ensures
        command == (if can_start { LifecycleCommand::Start } else { LifecycleCommand::Resume }),
{
    if can_start {
        LifecycleCommand::Start
    } else {
        LifecycleCommand::Resume
    }
}

/// The request of the log page's start button, if the container can do
/// either: starting takes precedence over resuming.
pub fn start_or_resume_if_able(can_start: bool, can_resume: bool) -> (command: Option<LifecycleCommand>)
    ensures
        command == (if can_start {
            Some(LifecycleCommand::Start)
        } else if can_resume {
            Some(LifecycleCommand::Resume)
        } else {
            None::<LifecycleCommand>
        }),
{
    if can_start {
        Some(LifecycleCommand::Start)
    } else if can_resume {
        Some(LifecycleCommand::Resume)
    } else {
        None
    }
}

/// An operation on all selected containers.
#[derive(Clone, Copy, Debug, PartialEq, Eq, Structural)]
pub enum SelectionOperation {
    StartOrResume,
    Stop,
    Pause,
    Restart,
    Delete,
}

/// What a selection operation asks of one selected container: a paused one
/// is resumed and any other not running is started; stopping, pausing and
/// restarting apply to running containers only; deletion is always forced.
pub open spec fn spec_selection_command(op: SelectionOperation, status: ContainerStatus) -> Option<LifecycleCommand> {
    match op {
        SelectionOperation::StartOrResume => if status == ContainerStatus::Paused {
            Some(LifecycleCommand::Resume)
        } else if status != ContainerStatus::Running {
            Some(LifecycleCommand::Start)
        } else {
            None
        },
        SelectionOperation::Stop => if status == ContainerStatus::Running {
            Some(LifecycleCommand::Stop)
        } else {
            None
        },
        SelectionOperation::Pause => if status == ContainerStatus::Running {
            Some(LifecycleCommand::Pause)
        } else {
            None
        },
        SelectionOperation::Restart => if status == ContainerStatus::Running {
            Some(LifecycleCommand::Restart)
        } else {
            None
        },
        SelectionOperation::Delete => Some(LifecycleCommand::ForceDelete),
    }
}

pub fn selection_command(op: SelectionOperation, status: ContainerStatus) -> (command: Option<LifecycleCommand>)
    ensures
        command == spec_selection_command(op, status),
{
    match op {
        SelectionOperation::StartOrResume => match status {
            ContainerStatus::Paused => Some(LifecycleCommand::Resume),
            ContainerStatus::Running => None,
            _ => Some(LifecycleCommand::Start),
        },
        SelectionOperation::Stop => if status == ContainerStatus::Running {
            Some(LifecycleCommand::Stop)
        } else {
            None
        },
        SelectionOperation::Pause => if status == ContainerStatus::Running {
            Some(LifecycleCommand::Pause)
        } else {
            None
        },
        SelectionOperation::Restart => if status == ContainerStatus::Running {
            Some(LifecycleCommand::Restart)
        } else {
            None
        },
        SelectionOperation::Delete => Some(LifecycleCommand::ForceDelete),
    }
}

/// The requests of a selection operation, one entry per selected container
/// in selection order. Selection mode ends after any of them.
pub fn selection_plan(op: SelectionOperation, statuses: &Vec<ContainerStatus>) -> (plan: Vec<Option<LifecycleCommand>>)
    ensures
        plan@.len() == statuses@.len(),
        forall|i: int| 0 <= i < statuses@.len() ==> plan@[i] == spec_selection_command(op, #[trigger] statuses@[i]),
{
    let mut plan: Vec<Option<LifecycleCommand>> = Vec::new();
    let mut i: usize = 0;
    while i < statuses.len()
        invariant
            i <= statuses@.len(),
            plan@.len() == i,
            forall|k: int| 0 <= k < i ==> plan@[k] == spec_selection_command(op, #[trigger] statuses@[k]),
        decreases statuses@.len() - i,
    {
        plan.push(selection_command(op, statuses[i]));
        i = i + 1;
    }
    plan
}

/// No selection operation ever asks a running container to start, nor one
/// that does not run to stop, pause or restart.
pub proof fn lemma_selection_respects_status(op: SelectionOperation, status: ContainerStatus)
    ensures
        status == ContainerStatus::Running ==> spec_selection_command(op, status) != Some(LifecycleCommand::Start)
            && spec_selection_command(op, status) != Some(LifecycleCommand::Resume),
        status != ContainerStatus::Running ==> spec_selection_command(op, status) != Some(LifecycleCommand::Stop)
            && spec_selection_command(op, status) != Some(LifecycleCommand::Pause)
            && spec_selection_command(op, status) != Some(LifecycleCommand::Restart),
        spec_selection_command(op, status) == Some(LifecycleCommand::Resume) ==> status == ContainerStatus::Paused,
{
}

/// What each operation asks of a selected container, by its state: "start
/// or resume" resumes a paused container, leaves a running one alone and
/// starts every other; stopping, pausing and restarting ask exactly that of
/// a running container and nothing of any other; deletion always deletes by
/// force.
pub proof fn lemma_selection_command_by_state(op: SelectionOperation, status: ContainerStatus)
    ensures
        op == SelectionOperation::StartOrResume ==> {
            &&& status == ContainerStatus::Paused ==> spec_selection_command(op, status) == Some(
                LifecycleCommand::Resume,
            )
            &&& status == ContainerStatus::Running ==> spec_selection_command(op, status) == None::<
                LifecycleCommand,
            >
            &&& (status != ContainerStatus::Running && status != ContainerStatus::Paused)
                ==> spec_selection_command(op, status) == Some(LifecycleCommand::Start)
        },
        op == SelectionOperation::Stop ==> spec_selection_command(op, status) == (if status
            == ContainerStatus::Running {
            Some(LifecycleCommand::Stop)
        } else {
            None
        }),
        op == SelectionOperation::Pause ==> spec_selection_command(op, status) == (if status
            == ContainerStatus::Running {
            Some(LifecycleCommand::Pause)
        } else {
            None
        }),
        op == SelectionOperation::Restart ==> spec_selection_command(op, status) == (if status
            == ContainerStatus::Running {
            Some(LifecycleCommand::Restart)
        } else {
            None
        }),
        op == SelectionOperation::Delete ==> spec_selection_command(op, status) == Some(
            LifecycleCommand::ForceDelete,
        ),
        spec_selection_command(op, status) is None <==> (op != SelectionOperation::Delete && (if op
            == SelectionOperation::StartOrResume {
            status == ContainerStatus::Running
        } else {
            status != ContainerStatus::Running
        })),
{
}

/// A plan asks of each selected container what the operation asks of it
/// alone: in particular "start or resume" starts every selected container
/// that is neither running nor paused.
pub proof fn lemma_selection_plan_starts_the_idle(statuses: Seq<ContainerStatus>, plan: Seq<Option<LifecycleCommand>>)
    requires
        plan.len() == statuses.len(),
        forall|i: int| 0 <= i < statuses.len() ==> plan[i] == spec_selection_command(
            SelectionOperation::StartOrResume,
            #[trigger] statuses[i],
        ),
    ensures
        forall|i: int|
            0 <= i < statuses.len() && statuses[i] != ContainerStatus::Running && statuses[i]
                != ContainerStatus::Paused ==> #[trigger] plan[i] == Some(LifecycleCommand::Start),
        forall|i: int| 0 <= i < statuses.len() && statuses[i] == ContainerStatus::Paused ==> #[trigger] plan[i] == Some(
            LifecycleCommand::Resume,
        ),
        forall|i: int| 0 <= i < statuses.len() && statuses[i] == ContainerStatus::Running ==> #[trigger] plan[i] is None,
{
}

/// The selection actions of the container panel are enabled exactly when
/// something is selected.
pub fn selection_actions_enabled(num_selected: u32) -> (enabled: bool)
    ensures
        enabled <==> num_selected > 0,
{
    num_selected > 0
}

/// Selection mode ends by itself when the last container goes away.
pub fn leaves_selection_mode(selection_mode: bool, len: u32) -> (leave: bool)
    ensures
        leave <==> (selection_mode && len == 0),
{
    selection_mode && len == 0
}

/// The answer of the dialog that confirms deleting a container: only
/// "confirm" deletes it.
pub fn card_deletion_confirmed(response: &str) -> (delete: bool)
    ensures
        delete == (response@ == "confirm"@),
{
    text_equals(response, "confirm")
}

/// Deleting the selection asks for confirmation only when something is
/// selected; only the answer "delete" then deletes, by force, every selected
/// container.
pub fn selection_deletion(num_selected: u32, response: Option<&str>) -> (delete: bool)
    ensures
        delete == (num_selected > 0 && match response {
            Some(r) => r@ == "delete"@,
            None => false,
        }),
{
    if num_selected == 0 {
        return false;
    }
    match response {
        Some(r) => text_equals(r, "delete"),
        None => false,
    }
}

} // verus!
