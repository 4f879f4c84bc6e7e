use sweepy::cleaner::{
    cleaning_prefix, dirs_to_clear_paths, plan_removals, project_display_name, removal_message,
    ALLOWED_TIME_UNITS,
};
use sweepy::constants::{ProjectInfo, ProjectTemplate};

fn project(path: &str, dirs: &[&str]) -> ProjectInfo {
    ProjectInfo {
        template: ProjectTemplate {
            name: "Node.js".to_string(),
            mark: "package.json".to_string(),
            dirs_to_clear: dirs.iter().map(|d| d.to_string()).collect(),
        },
        path: path.as_bytes().to_vec(),
    }
}

#[test]
fn time_units_are_days_months_years() {
    assert_eq!(ALLOWED_TIME_UNITS, ['d', 'm', 'y']);
}

#[test]
fn directories_to_clear_lie_inside_the_project() {
    let p = project("/w/web", &["node_modules", "dist"]);
    assert_eq!(
        dirs_to_clear_paths(&p),
        [b"/w/web/node_modules".to_vec(), b"/w/web/dist".to_vec()]
    );
    for path in dirs_to_clear_paths(&p) {
        assert!(path.starts_with(b"/w/web/"));
    }
    let odd = ProjectInfo { path: b"/w/caf\xe9".to_vec(), ..project("", &["target"]) };
    assert_eq!(dirs_to_clear_paths(&odd), [b"/w/caf\xe9/target".to_vec()]);
}

#[test]
fn a_dry_run_deletes_nothing() {
    let p = project("/w/web", &["node_modules", "dist", "build"]);
    let plan = plan_removals(&p, &vec![true, false, true], false);
    let got: Vec<(&[u8], bool)> = plan.iter().map(|r| (r.path.as_slice(), r.delete)).collect();
    assert_eq!(got, [(&b"/w/web/node_modules"[..], false), (&b"/w/web/build"[..], false)]);
}

#[test]
fn apply_deletes_the_existing_directories() {
    let p = project("/w/web", &["node_modules", "dist", "build"]);
    let plan = plan_removals(&p, &vec![false, true, true], true);
    let got: Vec<(&[u8], bool)> = plan.iter().map(|r| (r.path.as_slice(), r.delete)).collect();
    assert_eq!(got, [(&b"/w/web/dist"[..], true), (&b"/w/web/build"[..], true)]);
    assert!(plan_removals(&p, &vec![false, false, false], true).is_empty());
}

#[test]
fn names_and_messages() {
    assert_eq!(project_display_name(b"/w/web"), "web");
    assert_eq!(project_display_name(b"/"), "unknown");
    assert_eq!(project_display_name(b"/w/.."), "unknown");
    assert_eq!(project_display_name(b"/w/caf\xe9"), "caf\u{fffd}");
    assert_eq!(cleaning_prefix(true), "Cleaning project: ");
    assert_eq!(cleaning_prefix(false), "[dry-run] Cleaning project: ");
    assert_eq!(removal_message(b"/w/web/dist", true), "removed directory: /w/web/dist");
    assert_eq!(removal_message(b"/w/web/dist", false), "[dry-run] would remove: /w/web/dist");
    assert_eq!(removal_message(b"/w/\xff/dist", true), "removed directory: /w/\u{fffd}/dist");
}
