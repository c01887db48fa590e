use vstd::prelude::*;

verus! {

/// The lifecycle state of a container as reported by the engine.
#[derive(Clone, Copy, Debug, PartialEq, Eq, Structural)]
pub enum ContainerStatus {
    Configured,
    Created,
    Dead,
    Exited,
    Paused,
    Removing,
    Restarting,
    Running,
    Stopped,
    Stopping,
    Unknown,
}

/// The health-check state of a container.
#[derive(Clone, Copy, Debug, PartialEq, Eq, Structural)]
pub enum ContainerHealthStatus {
    Starting,
    Healthy,
    Unhealthy,
    Unconfigured,
    Unknown,
}

/// The CSS class that styles a container's status badge.
pub open spec fn spec_status_css_class(status: ContainerStatus) -> Seq<char> {
    match status {
        ContainerStatus::Created => "container-status-created"@,
        ContainerStatus::Dead => "container-status-dead"@,
        ContainerStatus::Exited => "container-status-exited"@,
        ContainerStatus::Paused => "container-status-paused"@,
        ContainerStatus::Removing => "container-status-removing"@,
        ContainerStatus::Restarting => "container-status-restarting"@,
        ContainerStatus::Running => "container-status-running"@,
        ContainerStatus::Stopped => "container-status-stopped"@,
        ContainerStatus::Stopping => "container-status-stopping"@,
        _ => "container-status-unknown"@,
    }
}

/// Maps a status to its CSS class. The styling table knows every state but
/// `Configured`, which the engine only reports to newer front ends.
pub fn container_status_css_class(status: ContainerStatus) -> (class: &'static str)
    requires
        status != ContainerStatus::Configured,
    ensures
        class@ == spec_status_css_class(status),
{
    match status {
        ContainerStatus::Created => "container-status-created",
        ContainerStatus::Dead => "container-status-dead",
        ContainerStatus::Exited => "container-status-exited",
        ContainerStatus::Paused => "container-status-paused",
        ContainerStatus::Removing => "container-status-removing",
        ContainerStatus::Restarting => "container-status-restarting",
        ContainerStatus::Running => "container-status-running",
        ContainerStatus::Stopped => "container-status-stopped",
        ContainerStatus::Stopping => "container-status-stopping",
        _ => "container-status-unknown",
    }
}

/// The CSS class that styles a container's health badge.
pub open spec fn spec_health_status_css_class(status: ContainerHealthStatus) -> Seq<char> {
    match status {
        ContainerHealthStatus::Starting => "container-health-status-checking"@,
        ContainerHealthStatus::Healthy => "container-health-status-healthy"@,
        ContainerHealthStatus::Unhealthy => "container-health-status-unhealthy"@,
        ContainerHealthStatus::Unconfigured => "container-health-status-unconfigured"@,
        ContainerHealthStatus::Unknown => "container-health-status-unknown"@,
    }
}

/// Maps a health status to its CSS class.
pub fn container_health_status_css_class(status: ContainerHealthStatus) -> (class: &'static str)
    ensures
        class@ == spec_health_status_css_class(status),
{
    match status {
        ContainerHealthStatus::Starting => "container-health-status-checking",
        ContainerHealthStatus::Healthy => "container-health-status-healthy",
        ContainerHealthStatus::Unhealthy => "container-health-status-unhealthy",
        ContainerHealthStatus::Unconfigured => "container-health-status-unconfigured",
        ContainerHealthStatus::Unknown => "container-health-status-unknown",
    }
}

/// Each health status is styled by its own class, which starts with
/// `container-health-status-`; no two share one.
pub proof fn lemma_health_classes_distinct(a: ContainerHealthStatus, b: ContainerHealthStatus)
    ensures
        spec_health_status_css_class(a).take(24) == "container-health-status-"@,
        a != b ==> spec_health_status_css_class(a) != spec_health_status_css_class(b),
{
    reveal_strlit("container-health-status-");
    reveal_strlit("container-health-status-checking");
    reveal_strlit("container-health-status-healthy");
    reveal_strlit("container-health-status-unhealthy");
    reveal_strlit("container-health-status-unconfigured");
    reveal_strlit("container-health-status-unknown");
    assert(spec_health_status_css_class(a).take(24) =~= "container-health-status-"@);
    if a != b {
        let x = spec_health_status_css_class(a);
        let y = spec_health_status_css_class(b);
        assert(x.len() != y.len() || x[24] != y[24] || x[26] != y[26]);
    }
}

/// The icon of a container row: playing, paused or stopped.
pub open spec fn spec_status_icon(status: ContainerStatus) -> Seq<char> {
    match status {
        ContainerStatus::Running => "media-playback-start-symbolic"@,
        ContainerStatus::Paused => "media-playback-pause-symbolic"@,
        _ => "media-playback-stop-symbolic"@,
    }
}

pub fn status_icon(status: ContainerStatus) -> (icon: &'static str)
    ensures
        icon@ == spec_status_icon(status),
{
    match status {
        ContainerStatus::Running => "media-playback-start-symbolic",
        ContainerStatus::Paused => "media-playback-pause-symbolic",
        _ => "media-playback-stop-symbolic",
    }
}

/// The icon of a container card, where a running container with a health
/// check shows a heart instead of the playing symbol.
pub open spec fn spec_status_health_icon(status: ContainerStatus, health: ContainerHealthStatus) -> Seq<char> {
    match status {
        ContainerStatus::Running => match health {
            ContainerHealthStatus::Healthy => "heart-filled-symbolic"@,
            ContainerHealthStatus::Unhealthy => "heart-broken-symbolic"@,
            _ => "media-playback-start-symbolic"@,
        },
        ContainerStatus::Paused => "media-playback-pause-symbolic"@,
        _ => "media-playback-stop-symbolic"@,
    }
}

pub fn status_health_icon(status: ContainerStatus, health: ContainerHealthStatus) -> (icon: &'static str)
    ensures
        icon@ == spec_status_health_icon(status, health),
{
    match status {
        ContainerStatus::Running => match health {
            ContainerHealthStatus::Healthy => "heart-filled-symbolic",
            ContainerHealthStatus::Unhealthy => "heart-broken-symbolic",
            _ => "media-playback-start-symbolic",
        },
        ContainerStatus::Paused => "media-playback-pause-symbolic",
        _ => "media-playback-stop-symbolic",
    }
}

/// The card icon agrees with the row icon except for a running container
/// whose health check has passed or failed, which shows a whole or a broken
/// heart; for any other state the health makes no difference. A paused
/// container always shows the pause symbol, and two states share a row icon
/// only when neither runs nor is paused, so each of the card's icons tells
/// running, paused, stopped, healthy and unhealthy apart.
pub proof fn lemma_card_icon_follows_row_icon(
    status: ContainerStatus,
    health: ContainerHealthStatus,
    other: ContainerStatus,
    other_health: ContainerHealthStatus,
)
    ensures
        status != ContainerStatus::Running ==> spec_status_health_icon(status, health) == spec_status_icon(status),
        status != ContainerStatus::Running ==> spec_status_health_icon(status, health) == spec_status_health_icon(
            status,
            other_health,
        ),
        (health != ContainerHealthStatus::Healthy && health != ContainerHealthStatus::Unhealthy)
            ==> spec_status_health_icon(status, health) == spec_status_icon(status),
        status == ContainerStatus::Paused ==> spec_status_health_icon(status, health)
            == "media-playback-pause-symbolic"@,
        status == ContainerStatus::Running && health == ContainerHealthStatus::Healthy ==> spec_status_health_icon(
            status,
            health,
        ) == "heart-filled-symbolic"@,
        status == ContainerStatus::Running && health == ContainerHealthStatus::Unhealthy
            ==> spec_status_health_icon(status, health) == "heart-broken-symbolic"@,
        (spec_status_icon(status) == spec_status_icon(other)) <==> (status == other || (status
            != ContainerStatus::Running && status != ContainerStatus::Paused && other != ContainerStatus::Running
            && other != ContainerStatus::Paused)),
        (spec_status_health_icon(status, health) == spec_status_health_icon(other, other_health)) ==> ((status
            == ContainerStatus::Running) == (other == ContainerStatus::Running) && (status == ContainerStatus::Paused)
            == (other == ContainerStatus::Paused)),
{
    reveal_strlit("media-playback-start-symbolic");
    reveal_strlit("media-playback-pause-symbolic");
    reveal_strlit("media-playback-stop-symbolic");
    reveal_strlit("heart-filled-symbolic");
    reveal_strlit("heart-broken-symbolic");
    let x = spec_status_health_icon(status, health);
    let y = spec_status_health_icon(other, other_health);
    if x == y {
        assert(x.len() == y.len() && x[0] == y[0] && x[6] == y[6] && x[15] == y[15]);
    }
    let a = spec_status_icon(status);
    let b = spec_status_icon(other);
    if a == b {
        assert(a.len() == b.len() && a[15] == b[15]);
    }
}

/// The health badge of a row is shown for a running container that has a
/// health check.
pub fn health_label_visible(status: ContainerStatus, health: ContainerHealthStatus) -> (visible: bool)
    ensures
        visible <==> (status == ContainerStatus::Running && health != ContainerHealthStatus::Unconfigured),
{
    status == ContainerStatus::Running && health != ContainerHealthStatus::Unconfigured
}

/// The health details of a container can be opened once it has a health check.
pub fn health_details_available(health: ContainerHealthStatus) -> (available: bool)
    ensures
        available <==> health != ContainerHealthStatus::Unconfigured,
{
    health != ContainerHealthStatus::Unconfigured
}

/// Whether a container's state comes with the time since which it holds:
/// only for a running or a paused container.
pub fn shows_state_since(status: ContainerStatus) -> (shows: bool)
    ensures
        shows <==> (status == ContainerStatus::Running || status == ContainerStatus::Paused),
{
    match status {
        ContainerStatus::Running | ContainerStatus::Paused => true,
        _ => false,
    }
}

/// The page of a card's resource area: usage figures while running.
pub fn resources_page(status: ContainerStatus) -> (page: &'static str)
    ensures
        page@ == (if status == ContainerStatus::Running { "running"@ } else { "not-running"@ }),
{
    match status {
        ContainerStatus::Running => "running",
        _ => "not-running",
    }
}

/// The extra CSS class of a card: a card whose container does not run is
/// dimmed.
pub fn card_css_class(status: ContainerStatus) -> (class: Option<&'static str>)
    ensures
        status == ContainerStatus::Running ==> class is None,
        status != ContainerStatus::Running ==> class is Some && class->0@ == "not-running"@,
{
    if status == ContainerStatus::Running {
        None
    } else {
        Some("not-running")
    }
}

/// The CSS class of a row's port label: highlighted while running.
pub fn port_label_css_class(status: ContainerStatus) -> (class: &'static str)
    ensures
        class@ == (if status == ContainerStatus::Running { "accent"@ } else { "dim-label"@ }),
{
    match status {
        ContainerStatus::Running => "accent",
        _ => "dim-label",
    }
}

/// Usage figures are shown for a running container only.
pub fn stats_visible(status: ContainerStatus) -> (visible: bool)
    ensures
        visible <==> status == ContainerStatus::Running,
{
    matches!(status, ContainerStatus::Running)
}

/// A health check can be run by hand on a running container that has one.
pub fn health_check_runnable(status: ContainerStatus, health: ContainerHealthStatus) -> (runnable: bool)
    ensures
        runnable <==> (health != ContainerHealthStatus::Unconfigured && status == ContainerStatus::Running),
{
    health != ContainerHealthStatus::Unconfigured && status == ContainerStatus::Running
}

/// The status class of the compact container row, which also styles
/// containers that are only configured.
pub fn compact_row_status_css_class(status: ContainerStatus) -> (class: &'static str)
    ensures
        status == ContainerStatus::Configured ==> class@ == "container-status-configured"@,
        status != ContainerStatus::Configured ==> class@ == spec_status_css_class(status),
{
    match status {
        ContainerStatus::Configured => "container-status-configured",
        _ => container_status_css_class(status),
    }
}

/// The published ports of a row show for a container outside a pod that has
/// some.
pub fn ports_visible(in_pod: bool, ports: u32) -> (visible: bool)
    ensures
        visible <==> (!in_pod && ports > 0),
{
    !in_pod && ports > 0
}

/// The lower-case name of a status.
pub open spec fn status_name(status: ContainerStatus) -> Seq<char> {
    match status {
        ContainerStatus::Configured => "configured"@,
        ContainerStatus::Created => "created"@,
        ContainerStatus::Dead => "dead"@,
        ContainerStatus::Exited => "exited"@,
        ContainerStatus::Paused => "paused"@,
        ContainerStatus::Removing => "removing"@,
        ContainerStatus::Restarting => "restarting"@,
        ContainerStatus::Running => "running"@,
        ContainerStatus::Stopped => "stopped"@,
        ContainerStatus::Stopping => "stopping"@,
        ContainerStatus::Unknown => "unknown"@,
    }
}

/// Each status (but `Configured`, which that table does not know) is styled
/// by the class `container-status-` followed by its name, so different
/// statuses never share a class.
pub proof fn lemma_status_classes_distinct(a: ContainerStatus, b: ContainerStatus)
    requires
        a != ContainerStatus::Configured,
        b != ContainerStatus::Configured,
    ensures
        spec_status_css_class(a) == "container-status-"@ + status_name(a),
        a != b ==> spec_status_css_class(a) != spec_status_css_class(b),
{
    reveal_strlit("container-status-");
    reveal_strlit("container-status-created");
    reveal_strlit("container-status-dead");
    reveal_strlit("container-status-exited");
    reveal_strlit("container-status-paused");
    reveal_strlit("container-status-removing");
    reveal_strlit("container-status-restarting");
    reveal_strlit("container-status-running");
    reveal_strlit("container-status-stopped");
    reveal_strlit("container-status-stopping");
    reveal_strlit("container-status-unknown");
    reveal_strlit("created");
    reveal_strlit("dead");
    reveal_strlit("exited");
    reveal_strlit("paused");
    reveal_strlit("removing");
    reveal_strlit("restarting");
    reveal_strlit("running");
    reveal_strlit("stopped");
    reveal_strlit("stopping");
    reveal_strlit("unknown");
    assert(spec_status_css_class(a) =~= "container-status-"@ + status_name(a));
    if a != b {
        let x = spec_status_css_class(a);
        let y = spec_status_css_class(b);
        assert(x.len() != y.len() || x[17] != y[17] || x[18] != y[18] || x[19] != y[19] || x[23] != y[23]);
    }
}

} // verus!
