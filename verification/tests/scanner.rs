use sweepy::constants::{project_root_markers, ProjectInfo, ProjectTemplate, SweepyConfig};
use sweepy::scanner::{
    get_dir_size_bytes, get_removable_space_bytes, git_commit_timestamp, language_templates,
    marker_paths, record_project, timestamp_from_git_output, try_project_info_for,
    ConfigLookup, RootWalk, WalkStep,
};

fn template(name: &str, mark: &str, dirs: &[&str]) -> ProjectTemplate {
    ProjectTemplate {
        name: name.to_string(),
        mark: mark.to_string(),
        dirs_to_clear: dirs.iter().map(|d| d.to_string()).collect(),
    }
}

fn project(path: &str, dirs: &[&str]) -> ProjectInfo {
    ProjectInfo { template: template("Rust", "Cargo.toml", dirs), path: path.as_bytes().to_vec() }
}

#[test]
fn chooses_the_languages_to_try() {
    let defaults = language_templates(ConfigLookup::NoConfigPath).unwrap();
    assert_eq!(defaults.len(), project_root_markers().len());
    assert_eq!(defaults[0].mark, "Cargo.toml");
    assert!(language_templates(ConfigLookup::Unreadable).is_none());
    let config = SweepyConfig { language: vec![template("Go", "go.mod", &["bin"])] };
    let loaded = language_templates(ConfigLookup::Loaded(config)).unwrap();
    assert_eq!(loaded.len(), 1);
    assert_eq!(loaded[0].name, "Go");
}

#[test]
fn lists_marker_paths_inside_the_entry() {
    let ts = project_root_markers();
    let paths = marker_paths(b"/w/app", &ts);
    assert_eq!(paths.len(), 8);
    assert_eq!(paths[0], b"/w/app/Cargo.toml");
    assert_eq!(paths[1], b"/w/app/package.json");
    assert_eq!(paths[7], b"/w/app/Package.swift");
}

#[test]
fn the_first_language_whose_marker_is_present_wins() {
    let ts = project_root_markers();
    let mut present = vec![false; ts.len()];
    assert!(try_project_info_for(b"/w/app", &ts, &present).is_none());
    present[1] = true;
    present[5] = true;
    let p = try_project_info_for(b"/w/app", &ts, &present).unwrap();
    assert_eq!(p.path, b"/w/app");
    assert_eq!(p.template.name, "Node.js");
    assert_eq!(p.template.dirs_to_clear.len(), 9);
    present[0] = true;
    assert_eq!(try_project_info_for(b"/w/app", &ts, &present).unwrap().template.name, "Rust");
}

#[test]
fn reads_the_git_commit_timestamp() {
    assert_eq!(timestamp_from_git_output("1715000000\n"), Some(1_715_000_000));
    assert_eq!(timestamp_from_git_output("  42  "), Some(42));
    assert_eq!(timestamp_from_git_output(""), None);
    assert_eq!(timestamp_from_git_output(" \n"), None);
    assert_eq!(timestamp_from_git_output("fatal"), None);
    assert_eq!(git_commit_timestamp(true, &b"1715000000\n".to_vec()), Some(1_715_000_000));
    assert_eq!(git_commit_timestamp(false, &b"1715000000\n".to_vec()), None);
    assert_eq!(git_commit_timestamp(true, &vec![0xff, b'1']), None);
    assert_eq!(git_commit_timestamp(true, &b"\xe2\x80\x83123".to_vec()), Some(123));
}

#[test]
fn keeps_only_projects_at_or_before_the_cutoff() {
    let mut roots = Vec::new();
    record_project(&mut roots, project("/w/a", &["target"]), Some(100), 100);
    record_project(&mut roots, project("/w/b", &["target"]), Some(101), 100);
    record_project(&mut roots, project("/w/c", &["target"]), None, 100);
    record_project(&mut roots, project("/w/d", &["target"]), Some(-5), 100);
    let paths: Vec<&[u8]> = roots.iter().map(|p| p.path.as_slice()).collect();
    assert_eq!(paths, [&b"/w/a"[..], &b"/w/d"[..]]);
}

#[test]
fn sums_sizes() {
    assert_eq!(get_dir_size_bytes(&vec![]), 0);
    assert_eq!(get_dir_size_bytes(&vec![1, 2, 3, 4096]), 4102);
    assert_eq!(get_dir_size_bytes(&vec![u64::MAX]), u64::MAX);
    let p = project("/w/a", &["node_modules", "dist", "build"]);
    assert_eq!(get_removable_space_bytes(&p, &vec![Some(10), None, Some(5)]), 15);
    assert_eq!(get_removable_space_bytes(&p, &vec![None, None, None]), 0);
}

#[test]
fn the_walk_records_no_project_inside_another() {
    let mut walk = RootWalk::new();
    assert!(matches!(walk.step(b"/w", None), WalkStep::Descend));
    match walk.step(b"/w/a", Some(project("/w/a", &["target"]))) {
        WalkStep::ProjectRoot(p) => assert_eq!(p.path, b"/w/a"),
        _ => panic!("a first project root is recorded"),
    }
    assert!(matches!(
        walk.step(b"/w/a/sub", Some(project("/w/a/sub", &["target"]))),
        WalkStep::Overlapping
    ));
    assert!(matches!(walk.step(b"/w/a", None), WalkStep::Overlapping));
    assert!(matches!(walk.step(b"/w", None), WalkStep::Overlapping));
    assert!(matches!(walk.step(b"/w/ab", None), WalkStep::Descend));
    assert!(matches!(
        walk.step(b"/w/ab", Some(project("/w/ab", &["target"]))),
        WalkStep::ProjectRoot(_)
    ));
}
