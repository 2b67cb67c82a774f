use license_me::walker::{collect_git_dirs, is_candidate_path, merge_records, should_descend};

fn listing(paths: &[&str]) -> Vec<String> {
    paths.iter().map(|p| p.to_string()).collect()
}

#[test]
fn single_marker_yields_single_record() {
    let paths = listing(&["/srv", "/srv/proj", "/srv/proj/.git", "/srv/proj/src"]);
    let recs = collect_git_dirs(&paths);
    assert_eq!(recs.len(), 1);
    assert_eq!(recs[0].path, "/srv/proj");
    assert_eq!(recs[0].project_title, "proj");
}

#[test]
fn no_marker_yields_no_record() {
    let paths = listing(&["/srv", "/srv/a", "/srv/a/file.txt", "/srv/b"]);
    let recs = collect_git_dirs(&paths);
    assert!(recs.is_empty());
}

#[test]
fn repeated_marker_paths_are_deduplicated() {
    let paths = listing(&["/srv/a/.git", "/srv/a/.git", "/srv/b/.git"]);
    let recs = collect_git_dirs(&paths);
    assert_eq!(recs.len(), 2);
    assert_eq!(recs[0].path, "/srv/a");
    assert_eq!(recs[1].path, "/srv/b");
}

#[test]
fn merging_two_walks_of_the_same_roots_has_no_duplicates() {
    let paths = listing(&["/srv/a/.git", "/srv/b/.git"]);
    let run1 = collect_git_dirs(&paths);
    let run2 = collect_git_dirs(&paths);
    let merged = merge_records(vec![run1, run2]);
    assert_eq!(merged.len(), 2);
    for i in 0..merged.len() {
        for j in (i + 1)..merged.len() {
            assert_ne!(merged[i].path, merged[j].path);
        }
    }
}

#[test]
fn denylisted_directories_never_become_records() {
    let paths = listing(&[
        "/mnt/$RECYCLE.BIN/x/.git",
        "/home/u/.cargo/registry/pkg/.git",
        "/Users/u/AppData/Roaming/app/.git",
        "/home/u/.hidden/proj/.git",
        "/home/u/ok/.git",
    ]);
    let recs = collect_git_dirs(&paths);
    assert_eq!(recs.len(), 1);
    assert_eq!(recs[0].path, "/home/u/ok");
}

#[test]
fn denylisted_directories_are_not_descended_into() {
    assert!(!should_descend("/mnt/$RECYCLE.BIN"));
    assert!(!should_descend("/home/u/.cargo"));
    assert!(!should_descend("/Users/u/AppData"));
    assert!(!should_descend("/home/u/.config"));
    assert!(should_descend("/home/u/work"));
}

#[test]
fn git_must_be_the_terminal_component() {
    assert!(is_candidate_path("/home/u/proj/.git"));
    assert!(!is_candidate_path("/home/u/proj/.git/modules/sub/.git"));
    assert!(!is_candidate_path("/home/u/proj/.gitignore"));
    assert!(!is_candidate_path("/home/u/proj"));
    assert!(!is_candidate_path("/home/u/my.git/sub/.git"));
}

#[test]
fn wide_fanout_returns_every_record_exactly_once() {
    // One traversal task per first-level subdirectory, each with one
    // repository, merged in two different task orders.
    let n = 150;
    let mut tasks: Vec<Vec<license_me::git_dir::GitDir>> = Vec::new();
    for i in 0..n {
        let root = format!("/disk/d{}", i);
        let paths = listing(&[&root, &format!("{}/.git", root), &format!("{}/src", root)]);
        tasks.push(collect_git_dirs(&paths));
    }
    let merged = merge_records(tasks);
    assert_eq!(merged.len(), n);
    let mut seen: Vec<String> = merged.iter().map(|r| r.path.clone()).collect();
    seen.sort();
    seen.dedup();
    assert_eq!(seen.len(), n);

    let mut tasks_rev: Vec<Vec<license_me::git_dir::GitDir>> = Vec::new();
    for i in (0..n).rev() {
        let root = format!("/disk/d{}", i);
        let paths = listing(&[&root, &format!("{}/.git", root), &format!("{}/src", root)]);
        tasks_rev.push(collect_git_dirs(&paths));
    }
    let merged_rev = merge_records(tasks_rev);
    assert_eq!(merged_rev.len(), n);
    let mut seen_rev: Vec<String> = merged_rev.iter().map(|r| r.path.clone()).collect();
    seen_rev.sort();
    assert_eq!(seen, seen_rev);
}

#[test]
fn end_to_end_two_repositories_under_one_root() {
    let paths = listing(&[
        "/tmp/x",
        "/tmp/x/a",
        "/tmp/x/a/.git",
        "/tmp/x/a/README.md",
        "/tmp/x/b",
        "/tmp/x/b/.git",
        "/tmp/x/b/LICENSE",
        "/tmp/x/c",
    ]);
    let recs = collect_git_dirs(&paths);
    assert_eq!(recs.len(), 2);
    assert_eq!(recs[0].path, "/tmp/x/a");
    assert_eq!(recs[0].readme_path, Some("/tmp/x/a/README.md".to_string()));
    assert_eq!(recs[0].license_path, None);
    assert!(recs[0].license.is_none());
    assert_eq!(recs[1].path, "/tmp/x/b");
    assert_eq!(recs[1].readme_path, None);
    assert_eq!(recs[1].license_path, Some("/tmp/x/b/LICENSE".to_string()));
    assert!(recs[1].license.is_none());
}

#[test]
fn merge_keeps_first_record_for_each_path() {
    let paths_a = listing(&["/r/p/.git", "/r/p/README"]);
    let paths_b = listing(&["/r/p/.git", "/r/q/.git"]);
    let run_a = collect_git_dirs(&paths_a);
    let run_b = collect_git_dirs(&paths_b);
    let merged = merge_records(vec![run_a, run_b]);
    assert_eq!(merged.len(), 2);
    assert_eq!(merged[0].path, "/r/p");
    // The record for /r/p comes from the first task, which saw its README.
    assert_eq!(merged[0].readme_path, Some("/r/p/README".to_string()));
    assert_eq!(merged[1].path, "/r/q");
}
