use pods::actions::{card_deletion_confirmed, selection_deletion};
use pods::status::{compact_row_status_css_class, ports_visible};
use pods::actions::{
    card_controls, compact_menu_actions, leaves_selection_mode, menu_actions, selection_actions_enabled,
    selection_command, selection_plan, start_or_resume, start_or_resume_if_able, Capabilities, LifecycleCommand,
    SelectionOperation,
};
use pods::status::{
    card_css_class, container_health_status_css_class, container_status_css_class, health_check_runnable,
    health_details_available, health_label_visible, port_label_css_class, resources_page, shows_state_since,
    stats_visible, status_health_icon, status_icon, ContainerHealthStatus, ContainerStatus,
};

#[test]
fn status_css_classes() {
    assert_eq!(container_status_css_class(ContainerStatus::Running), "container-status-running");
    assert_eq!(container_status_css_class(ContainerStatus::Exited), "container-status-exited");
    assert_eq!(container_status_css_class(ContainerStatus::Unknown), "container-status-unknown");
    assert_eq!(container_health_status_css_class(ContainerHealthStatus::Starting), "container-health-status-checking");
    assert_eq!(container_health_status_css_class(ContainerHealthStatus::Unhealthy), "container-health-status-unhealthy");
}

#[test]
fn status_icons() {
    assert_eq!(status_icon(ContainerStatus::Running), "media-playback-start-symbolic");
    assert_eq!(status_icon(ContainerStatus::Paused), "media-playback-pause-symbolic");
    assert_eq!(status_icon(ContainerStatus::Dead), "media-playback-stop-symbolic");
    assert_eq!(status_health_icon(ContainerStatus::Running, ContainerHealthStatus::Healthy), "heart-filled-symbolic");
    assert_eq!(status_health_icon(ContainerStatus::Running, ContainerHealthStatus::Unhealthy), "heart-broken-symbolic");
    assert_eq!(
        status_health_icon(ContainerStatus::Running, ContainerHealthStatus::Unconfigured),
        "media-playback-start-symbolic"
    );
    assert_eq!(status_health_icon(ContainerStatus::Exited, ContainerHealthStatus::Healthy), "media-playback-stop-symbolic");
}

#[test]
fn status_visibility_rules() {
    assert!(health_label_visible(ContainerStatus::Running, ContainerHealthStatus::Healthy));
    assert!(!health_label_visible(ContainerStatus::Running, ContainerHealthStatus::Unconfigured));
    assert!(!health_label_visible(ContainerStatus::Paused, ContainerHealthStatus::Healthy));
    assert!(health_details_available(ContainerHealthStatus::Starting));
    assert!(!health_details_available(ContainerHealthStatus::Unconfigured));
    assert!(shows_state_since(ContainerStatus::Paused));
    assert!(!shows_state_since(ContainerStatus::Stopped));
    assert_eq!(resources_page(ContainerStatus::Running), "running");
    assert_eq!(resources_page(ContainerStatus::Created), "not-running");
    assert_eq!(card_css_class(ContainerStatus::Running), None);
    assert_eq!(card_css_class(ContainerStatus::Exited), Some("not-running"));
    assert_eq!(port_label_css_class(ContainerStatus::Running), "accent");
    assert_eq!(port_label_css_class(ContainerStatus::Paused), "dim-label");
    assert!(stats_visible(ContainerStatus::Running));
    assert!(!stats_visible(ContainerStatus::Restarting));
    assert!(health_check_runnable(ContainerStatus::Running, ContainerHealthStatus::Healthy));
    assert!(!health_check_runnable(ContainerStatus::Exited, ContainerHealthStatus::Healthy));
}

#[test]
fn menu_table() {
    let running = menu_actions(ContainerStatus::Running);
    assert!(!running.start && running.stop && running.force_stop && running.restart && running.pause);
    assert!(!running.delete && running.force_delete && !running.resume);
    let paused = menu_actions(ContainerStatus::Paused);
    assert!(paused.resume && paused.force_delete && !paused.stop && !paused.start);
    let exited = menu_actions(ContainerStatus::Exited);
    assert!(exited.start && exited.delete && !exited.force_delete && !exited.stop);
    let configured = menu_actions(ContainerStatus::Configured);
    assert!(configured.start && configured.delete);
    let removing = menu_actions(ContainerStatus::Removing);
    assert!(!removing.start && !removing.stop && !removing.delete && !removing.force_delete && !removing.resume);
}

#[test]
fn menu_never_offers_start_and_stop_together() {
    let all = [
        ContainerStatus::Configured,
        ContainerStatus::Created,
        ContainerStatus::Dead,
        ContainerStatus::Exited,
        ContainerStatus::Paused,
        ContainerStatus::Removing,
        ContainerStatus::Restarting,
        ContainerStatus::Running,
        ContainerStatus::Stopped,
        ContainerStatus::Stopping,
        ContainerStatus::Unknown,
    ];
    for status in all {
        let a = menu_actions(status);
        assert!(!(a.start && a.stop));
        assert!(!(a.pause && a.resume));
        assert!(!(a.delete && a.force_delete));
    }
}

fn caps(can_start: bool, can_resume: bool, can_stop: bool) -> Capabilities {
    Capabilities {
        can_start,
        can_resume,
        can_stop,
        can_kill: can_stop,
        can_restart: can_stop,
        can_pause: can_stop,
        can_delete: !can_stop,
    }
}

#[test]
fn compact_menu_kills_when_it_stops() {
    let a = compact_menu_actions(caps(false, false, true));
    assert!(a.stop && a.force_stop && a.restart && a.pause && !a.delete && !a.start);
}

#[test]
fn card_buttons() {
    let idle_stopped = card_controls(false, false, caps(true, false, false));
    assert!(idle_stopped.start_or_resume_visible && !idle_stopped.stop_visible && !idle_stopped.spinner_visible);
    assert!(idle_stopped.sensitive);
    let busy = card_controls(true, false, caps(true, false, true));
    assert!(!busy.start_or_resume_visible && !busy.stop_visible && busy.spinner_visible && !busy.sensitive);
    let nothing = card_controls(false, true, caps(false, false, false));
    assert!(nothing.spinner_visible && !nothing.sensitive);
}

#[test]
fn start_or_resume_choice() {
    assert_eq!(start_or_resume(true), LifecycleCommand::Start);
    assert_eq!(start_or_resume(false), LifecycleCommand::Resume);
    assert_eq!(start_or_resume_if_able(true, true), Some(LifecycleCommand::Start));
    assert_eq!(start_or_resume_if_able(false, true), Some(LifecycleCommand::Resume));
    assert_eq!(start_or_resume_if_able(false, false), None);
}

#[test]
fn selection_operations() {
    let statuses = vec![ContainerStatus::Paused, ContainerStatus::Running, ContainerStatus::Exited];
    assert_eq!(
        selection_plan(SelectionOperation::StartOrResume, &statuses),
        vec![Some(LifecycleCommand::Resume), None, Some(LifecycleCommand::Start)]
    );
    assert_eq!(selection_plan(SelectionOperation::Stop, &statuses), vec![None, Some(LifecycleCommand::Stop), None]);
    assert_eq!(selection_plan(SelectionOperation::Pause, &statuses), vec![None, Some(LifecycleCommand::Pause), None]);
    assert_eq!(
        selection_plan(SelectionOperation::Restart, &statuses),
        vec![None, Some(LifecycleCommand::Restart), None]
    );
    assert_eq!(
        selection_plan(SelectionOperation::Delete, &statuses),
        vec![Some(LifecycleCommand::ForceDelete); 3]
    );
    assert_eq!(selection_command(SelectionOperation::Stop, ContainerStatus::Paused), None);
    assert!(selection_plan(SelectionOperation::Stop, &Vec::new()).is_empty());
}

#[test]
fn selection_mode_rules() {
    assert!(selection_actions_enabled(2));
    assert!(!selection_actions_enabled(0));
    assert!(leaves_selection_mode(true, 0));
    assert!(!leaves_selection_mode(true, 1));
    assert!(!leaves_selection_mode(false, 0));
}

#[test]
fn compact_rows_and_ports() {
    assert_eq!(compact_row_status_css_class(ContainerStatus::Configured), "container-status-configured");
    assert_eq!(compact_row_status_css_class(ContainerStatus::Paused), "container-status-paused");
    assert!(ports_visible(false, 2));
    assert!(!ports_visible(true, 2));
    assert!(!ports_visible(false, 0));
}

#[test]
fn deletion_confirmation() {
    assert!(card_deletion_confirmed("confirm"));
    assert!(!card_deletion_confirmed("cancel"));
    assert!(selection_deletion(2, Some("delete")));
    assert!(!selection_deletion(2, Some("cancel")));
    assert!(!selection_deletion(0, Some("delete")));
    assert!(!selection_deletion(3, None));
}
