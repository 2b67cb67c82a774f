use license_me::git_dir::{get_project_title, replace_license_section, GitDir};
use license_me::github_license::{find_license_match, GithubLicense};

fn listing(paths: &[&str]) -> Vec<String> {
    paths.iter().map(|p| p.to_string()).collect()
}

fn catalog_entry(spdx: &str, html_url: &str, body: &str) -> GithubLicense {
    GithubLicense {
        key: spdx.to_lowercase(),
        name: format!("{} License", spdx),
        spdx_id: spdx.to_string(),
        url: format!("https://api.example/licenses/{}", spdx),
        node_id: "N".to_string(),
        html_url: html_url.to_string(),
        description: "A license.".to_string(),
        implementation: "Add a file.".to_string(),
        permissions: vec!["commercial-use".to_string()],
        conditions: vec!["include-copyright".to_string()],
        limitations: vec!["liability".to_string()],
        body: body.to_string(),
        featured: false,
    }
}

#[test]
fn init_strips_marker_and_derives_title() {
    let files = listing(&["/home/u/proj/README.md"]);
    let d = GitDir::init("/home/u/proj/.git".to_string(), &files);
    assert_eq!(d.path, "/home/u/proj");
    assert_eq!(d.project_title, "proj");
    assert_eq!(d.readme_path, Some("/home/u/proj/README.md".to_string()));
    assert_eq!(d.license_path, None);
    assert!(d.license.is_none());
}

#[test]
fn literal_license_file_is_detected() {
    let files = listing(&["/r/p/LICENSE", "/r/p/main.rs"]);
    let d = GitDir::init("/r/p/.git".to_string(), &files);
    assert_eq!(d.license_path, Some("/r/p/LICENSE".to_string()));
}

#[test]
fn no_license_variant_means_none() {
    let files = listing(&["/r/p/main.rs", "/r/p/LICENSES", "/r/p/Licence"]);
    let d = GitDir::init("/r/p/.git".to_string(), &files);
    assert_eq!(d.license_path, None);
}

#[test]
fn variants_are_probed_in_fixed_order() {
    let files = listing(&["/r/p/README.md", "/r/p/README", "/r/p/license", "/r/p/License"]);
    let d = GitDir::init("/r/p/.git".to_string(), &files);
    assert_eq!(d.readme_path, Some("/r/p/README".to_string()));
    assert_eq!(d.license_path, Some("/r/p/license".to_string()));

    let files2 = listing(&["/r/p/Readme.MD", "/r/p/License"]);
    let d2 = GitDir::init("/r/p/.git".to_string(), &files2);
    assert_eq!(d2.readme_path, Some("/r/p/Readme.MD".to_string()));
    assert_eq!(d2.license_path, Some("/r/p/License".to_string()));
}

#[test]
fn default_paths_are_built_from_the_root() {
    let d = GitDir::init("/r/p/.git".to_string(), &listing(&[]));
    assert_eq!(d.get_default_readme_path(), "/r/p/README.md");
    assert_eq!(d.get_default_license_path(), "/r/p/LICENSE");
}

#[test]
fn project_title_is_the_next_to_last_segment() {
    assert_eq!(get_project_title("/home/u/myproj/.git"), "myproj");
    assert_eq!(get_project_title("a/b"), "a");
    assert_eq!(get_project_title("x"), "project-title");
    assert_eq!(get_project_title(""), "project-title");
}

#[test]
fn attach_license_keeps_the_best_match_above_threshold() {
    let mit = catalog_entry("MIT", "https://mit.example", "Permission is hereby granted, free of charge");
    let gpl = catalog_entry("GPL-3.0", "https://gpl.example", "This program is free software: you can redistribute it");
    let mut d = GitDir::init("/r/p/.git".to_string(), &listing(&["/r/p/LICENSE"]));
    d.attach_license(&vec![gpl, mit], "Permission is hereby granted, free of charge!");
    let got = d.license.expect("a license should match");
    assert_eq!(got.spdx_id, "MIT");
    // Every other field of the record is untouched.
    assert_eq!(d.path, "/r/p");
    assert_eq!(d.license_path, Some("/r/p/LICENSE".to_string()));
}

#[test]
fn attach_license_leaves_none_when_nothing_reaches_the_threshold() {
    let mit = catalog_entry("MIT", "https://mit.example", "Permission is hereby granted, free of charge");
    let mut d = GitDir::init("/r/p/.git".to_string(), &listing(&["/r/p/LICENSE"]));
    d.attach_license(&vec![mit], "totally unrelated words here");
    assert!(d.license.is_none());
}

#[test]
fn find_license_match_picks_the_closest_entry() {
    let content = "alpha beta gamma delta";
    let close = catalog_entry("A", "https://a", "alpha beta gamma delt");
    let closer = catalog_entry("B", "https://b", "alpha beta gamma delta");
    let far = catalog_entry("C", "https://c", "zzzz");
    let cat = vec![close, closer, far];
    assert_eq!(find_license_match(&cat, content), Some(1));
}

#[test]
fn find_license_match_prefers_the_earliest_of_equal_scores() {
    let content = "same text";
    let a = catalog_entry("A", "https://a", "same text");
    let b = catalog_entry("B", "https://b", "same text");
    assert_eq!(find_license_match(&vec![a, b], content), Some(0));
}

#[test]
fn markdown_link_is_built_from_spdx_and_url() {
    let mit = catalog_entry("MIT", "https://mit.example", "body");
    assert_eq!(mit.get_markdown_license_link(), "\n[MIT](https://mit.example)");
}

#[test]
fn placeholders_are_filled_in_the_body() {
    let mut lic = catalog_entry("MIT", "https://mit.example", "(c) [year] [fullname], [fullname]");
    lic = lic.set_username_and_year("Jane Doe", "2024");
    assert_eq!(lic.body, "(c) 2024 Jane Doe, Jane Doe");
    assert_eq!(lic.spdx_id, "MIT");
}

#[test]
fn replacing_the_final_license_section_appends_the_link() {
    let mit = catalog_entry("MIT", "https://mit.example", "body");
    let content = "intro\n## License\nold text\n";
    let out = replace_license_section(content, &mit, false);
    assert_eq!(out, "intro\n## License\n\n[MIT](https://mit.example)");
}

#[test]
fn replacing_a_middle_license_section_reopens_the_next_heading() {
    let mit = catalog_entry("MIT", "https://mit.example", "body");
    let content = "a\n## License\nold\n## Other\nrest";
    let out = replace_license_section(content, &mit, false);
    assert_eq!(out, "a\n## License\n\n[MIT](https://mit.example)\n\n## Other\nrest");
}

#[test]
fn content_without_a_license_heading_is_unchanged() {
    let mit = catalog_entry("MIT", "https://mit.example", "body");
    let content = "# Title\n\n## Usage\nrun it\n";
    let out = replace_license_section(content, &mit, false);
    assert_eq!(out, content);
}

#[test]
fn empty_content_stays_empty() {
    let mit = catalog_entry("MIT", "https://mit.example", "body");
    assert_eq!(replace_license_section("", &mit, false), "");
}

#[test]
fn an_empty_catalog_never_matches() {
    assert_eq!(find_license_match(&Vec::new(), "any text"), None);
}

#[test]
fn multi_license_mode_keeps_the_old_section_text() {
    let mit = catalog_entry("MIT", "https://mit.example", "body");
    let content = "a\n## License\nold\n";
    let out = replace_license_section(content, &mit, true);
    assert_eq!(out, "a\n## License\nold\n\n\n[MIT](https://mit.example)");
}
