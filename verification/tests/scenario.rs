use crust_trust::cli::{completion_message, parse_arguments};
use crust_trust::manifest::{create_crate_with_dependencies, optimize_dependencies};
use crust_trust::registry::collect_crates_data;
use crust_trust::toolchain::{advance, start, CommandOutcome, RunState, StepVerdict};
use crust_trust::workspace::{add_crate_to_workspace, create_workspace};

fn strings(items: &[&str]) -> Vec<String> {
    items.iter().map(|s| s.to_string()).collect()
}

#[test]
fn workspace_with_two_crates() {
    let invocation = parse_arguments(&strings(&["myws", "core:serde,log", "util:"])).ok().unwrap();
    assert_eq!(invocation.project_name, "myws");

    let mut root = create_workspace(false).unwrap();
    let registry = collect_crates_data(&invocation.crate_args);
    assert_eq!(registry.len(), 2);

    let mut manifests: Vec<(String, String)> = Vec::new();
    for i in 0..registry.len() {
        let spec = registry.entry(i);
        let files = create_crate_with_dependencies(&spec.name, &spec.dependencies);
        assert_eq!(files.source, "// Default lib.rs content\n");
        root = add_crate_to_workspace(&root, &spec.name);
        manifests.push((files.directory, files.manifest));
    }

    assert_eq!(root, "[workspace]\nmembers = [\"core\", \"util\"]\n");
    assert_eq!(root.matches("\"core\"").count(), 1);
    assert_eq!(root.matches("\"util\"").count(), 1);
    assert_eq!(
        manifests,
        vec![
            (
                "core".to_string(),
                "[package]\nname = \"core\"\nversion = \"0.1.0\"\nedition = \"2021\"\n\n[dependencies]\nserde = \"*\"\nlog = \"*\"\n"
                    .to_string()
            ),
            (
                "util".to_string(),
                "[package]\nname = \"util\"\nversion = \"0.1.0\"\nedition = \"2021\"\n\n[dependencies]\n"
                    .to_string()
            ),
        ]
    );

    let texts: Vec<String> = manifests.into_iter().map(|(_, text)| text).collect();
    assert_eq!(
        optimize_dependencies(&texts),
        strings(&["[package]", "name", "version", "edition", "", "[dependencies]", "serde", "log"])
    );

    let mut state = start();
    let mut reports: Vec<String> = Vec::new();
    while let RunState::Pending(step) = state {
        let outcome =
            CommandOutcome { success: true, stdout: "{}".to_string(), stderr: String::new() };
        let (verdict, next) = advance(step, &outcome);
        match verdict {
            StepVerdict::Proceed { report } => reports.push(report),
            StepVerdict::Abort { diagnostic, .. } => panic!("{}", diagnostic),
        }
        state = next;
    }
    assert_eq!(state, RunState::Finished(0));
    assert_eq!(
        reports,
        strings(&[
            "`cargo check` passed.",
            "Dependency versions updated.",
            "Benchmarking completed.",
            "Dependency Graph: {}",
        ])
    );
    assert_eq!(completion_message(&invocation.project_name), "Workspace 'myws' created successfully!");
}

#[test]
fn crates_registered_in_the_other_order() {
    let registry = collect_crates_data(&strings(&["util:", "core:serde,log"]));
    let mut root = create_workspace(false).unwrap();
    for name in registry.names() {
        root = add_crate_to_workspace(&root, &name);
    }
    assert_eq!(root, "[workspace]\nmembers = [\"util\", \"core\"]\n");
}

#[test]
fn second_run_adds_to_what_the_first_left() {
    let mut root = create_workspace(false).unwrap();
    for name in collect_crates_data(&strings(&["core:serde"])).names() {
        root = add_crate_to_workspace(&root, &name);
    }
    assert_eq!(create_workspace(true), None);
    assert_eq!(root, "[workspace]\nmembers = [\"core\"]\n");
    for name in collect_crates_data(&strings(&["util:", "core:log"])).names() {
        root = add_crate_to_workspace(&root, &name);
    }
    assert_eq!(root, "[workspace]\nmembers = [\"core\", \"util\", \"core\"]\n");
}

#[test]
fn same_name_given_twice_is_one_crate() {
    let registry = collect_crates_data(&strings(&["core:serde", "core:log"]));
    let mut root = create_workspace(false).unwrap();
    for name in registry.names() {
        root = add_crate_to_workspace(&root, &name);
    }
    assert_eq!(root, "[workspace]\nmembers = [\"core\"]\n");
    let files = create_crate_with_dependencies("core", &registry.entry(0).dependencies);
    assert!(files.manifest.ends_with("[dependencies]\nlog = \"*\"\n"));
}
