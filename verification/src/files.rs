use vstd::prelude::*;

use crate::commit::{spec_trim, trim};
use crate::containers::{compare_names, spec_name_order, NameOrder};

verus! {

broadcast use vstd::string::group_string_axioms;

/// The archive name suggested when copying files out of a container: the
/// container's name (`container` when it has none) and the current time, or
/// the name alone when the time cannot be had.
pub fn suggested_archive_name(container_name: Option<&str>, now: Option<&str>) -> (name: String)
    ensures
        ({
            let base = match container_name {
                Some(n) => n@,
                None => "container"@,
            };
            name@ == match now {
                Some(date) => base + "-"@ + date@ + ".tar"@,
                None => base + ".tar"@,
            }
        }),
{
    let mut name = match container_name {
        Some(n) => String::from_str(n),
        None => String::from_str("container"),
    };
    match now {
        Some(date) => {
            name.append("-");
            name.append(date);
            name.append(".tar");
        },
        None => {
            name.append(".tar");
        },
    }
    name
}

/// Copying is possible once a host path is chosen.
pub fn copy_enabled(host_path: Option<&str>) -> (enabled: bool)
    ensures
        enabled <==> match host_path {
            Some(p) => p@.len() > 0,
            None => false,
        },
{
    match host_path {
        Some(p) => !p.is_empty(),
        None => false,
    }
}

/// The container path entered on the page that fetches files, used as it
/// is, or the root when none is entered.
pub fn path_or_root(path: &str) -> (chosen: String)
    ensures
        chosen@ == (if path@.len() == 0 { "/"@ } else { path@ }),
{
    if path.is_empty() {
        String::from_str("/")
    } else {
        String::from_str(path)
    }
}

/// How a health check run is shown: its icon and style, passed or failed.
#[derive(Clone, Copy, Debug)]
pub struct HealthRun {
    pub passed: bool,
    pub icon: &'static str,
    pub css_class: &'static str,
}

/// A run passed when its command exited with code zero.
pub fn health_run(exit_code: i64) -> (run: HealthRun)
    ensures
        run.passed <==> exit_code == 0,
        run.passed ==> run.icon@ == "success-symbolic"@ && run.css_class@ == "success"@,
        !run.passed ==> run.icon@ == "error-symbolic"@ && run.css_class@ == "error"@,
{
    if exit_code == 0 {
        HealthRun { passed: true, icon: "success-symbolic", css_class: "success" }
    } else {
        HealthRun { passed: false, icon: "error-symbolic", css_class: "error" }
    }
}

/// Health check runs are listed newest first: a run comes before another
/// when its start time orders after the other's.
pub fn newest_first(start_a: &str, start_b: &str) -> (order: NameOrder)
    ensures
        order == spec_name_order(start_b@, start_a@),
{
    compare_names(start_b, start_a)
}

/// The container path entered in a copy dialog: without the white space
/// around it, or the root when it holds nothing else.
pub fn copy_path(text: &str) -> (chosen: String)
    ensures
        chosen@ == (if spec_trim(text@).len() == 0 { "/"@ } else { spec_trim(text@) }),
{
    let trimmed = trim(text);
    if trimmed.as_str().is_empty() {
        String::from_str("/")
    } else {
        trimmed
    }
}

} // verus!
