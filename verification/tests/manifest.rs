use crust_trust::manifest::{
    create_crate_with_dependencies, line_key, manifest_file_name, optimize_dependencies,
    source_directory, source_file_name,
};

fn strings(items: &[&str]) -> Vec<String> {
    items.iter().map(|s| s.to_string()).collect()
}

#[test]
fn manifest_declares_each_dependency_with_any_version() {
    let files = create_crate_with_dependencies("core", &strings(&["serde", "log"]));
    assert_eq!(
        files.manifest,
        "[package]\nname = \"core\"\nversion = \"0.1.0\"\nedition = \"2021\"\n\n[dependencies]\nserde = \"*\"\nlog = \"*\"\n"
    );
}

#[test]
fn manifest_without_dependencies_has_an_empty_section() {
    let files = create_crate_with_dependencies("util", &Vec::new());
    assert_eq!(
        files.manifest,
        "[package]\nname = \"util\"\nversion = \"0.1.0\"\nedition = \"2021\"\n\n[dependencies]\n"
    );
    assert!(files.manifest.ends_with("[dependencies]\n"));
}

#[test]
fn crate_directory_is_the_crate_name() {
    let files = create_crate_with_dependencies("core", &strings(&["serde"]));
    assert_eq!(files.directory, "core");
    let files = create_crate_with_dependencies("", &Vec::new());
    assert_eq!(files.directory, "");
}

#[test]
fn stub_source_is_a_comment() {
    let files = create_crate_with_dependencies("core", &strings(&["serde"]));
    assert_eq!(files.source, "// Default lib.rs content\n");
}

#[test]
fn repeated_dependency_is_declared_each_time() {
    let files = create_crate_with_dependencies("a", &strings(&["x", "x"]));
    assert!(files.manifest.ends_with("[dependencies]\nx = \"*\"\nx = \"*\"\n"));
}

#[test]
fn dependency_section_has_one_line_for_each_dependency() {
    let deps = strings(&["serde", "log", "rand", "some-crate", "tokio"]);
    let files = create_crate_with_dependencies("core", &deps);
    let lines: Vec<&str> = files.manifest.lines().collect();
    assert_eq!(
        &lines[..6],
        &["[package]", "name = \"core\"", "version = \"0.1.0\"", "edition = \"2021\"", "", "[dependencies]"]
    );
    let declared: Vec<String> = lines[6..].iter().map(|l| l.to_string()).collect();
    let expected: Vec<String> = deps.iter().map(|d| format!("{} = \"*\"", d)).collect();
    assert_eq!(declared, expected);
}

#[test]
fn file_layout_of_a_crate() {
    assert_eq!(manifest_file_name(), "Cargo.toml");
    assert_eq!(source_directory(), "src");
    assert_eq!(source_file_name(), "src/lib.rs");
}

#[test]
fn key_is_what_precedes_the_first_equals_sign() {
    assert_eq!(line_key("serde = \"*\""), "serde");
    assert_eq!(line_key("name = \"a = b\""), "name");
    assert_eq!(line_key("  spaced\t=1"), "spaced");
    assert_eq!(line_key("=x"), "");
    assert_eq!(line_key("a==b"), "a");
}

#[test]
fn key_of_a_line_without_equals_sign_is_the_trimmed_line() {
    assert_eq!(line_key("[dependencies]"), "[dependencies]");
    assert_eq!(line_key("  [package]  "), "[package]");
    assert_eq!(line_key(""), "");
    assert_eq!(line_key(" \t "), "");
    assert_eq!(line_key("two words"), "two words");
}

#[test]
fn key_agrees_with_trimming_every_kind_of_whitespace() {
    let mut code: u32 = 0;
    while code <= 0x10FFFF {
        if let Some(c) = char::from_u32(code) {
            if c != '=' {
                let line = format!("{}x y{}= {}", c, c, c);
                assert_eq!(line_key(&line), line.split('=').next().unwrap().trim(), "U+{:04X}", code);
            }
        }
        code += 1;
    }
}

#[test]
fn keys_of_a_generated_manifest() {
    let files = create_crate_with_dependencies("core", &strings(&["serde", "log"]));
    assert_eq!(
        optimize_dependencies(&vec![files.manifest]),
        strings(&["[package]", "name", "version", "edition", "", "[dependencies]", "serde", "log"])
    );
}

#[test]
fn shared_keys_are_listed_once() {
    let core = create_crate_with_dependencies("core", &strings(&["serde", "log"])).manifest;
    let util = create_crate_with_dependencies("util", &strings(&["log", "rand"])).manifest;
    assert_eq!(
        optimize_dependencies(&vec![core, util]),
        strings(&[
            "[package]", "name", "version", "edition", "", "[dependencies]", "serde", "log", "rand"
        ])
    );
}

#[test]
fn no_manifests_no_keys() {
    assert!(optimize_dependencies(&Vec::new()).is_empty());
    assert!(optimize_dependencies(&vec![String::new()]).is_empty());
    assert!(optimize_dependencies(&vec![String::new(), String::new()]).is_empty());
}

#[test]
fn keys_keep_the_order_of_first_occurrence() {
    let manifests = strings(&["b = 1\na = 2\nb = 3\n", "c = 4\na = 5"]);
    assert_eq!(optimize_dependencies(&manifests), strings(&["b", "a", "c"]));
}

#[test]
fn lines_end_at_line_feeds_with_or_without_carriage_return() {
    let manifests = strings(&["a = 1\r\nb = 2\n\nc\r\n"]);
    assert_eq!(optimize_dependencies(&manifests), strings(&["a", "b", "", "c"]));
    let manifests = strings(&["a\rb = 1\nc"]);
    assert_eq!(optimize_dependencies(&manifests), strings(&["a\rb", "c"]));
}

#[test]
fn keys_agree_with_reading_line_by_line() {
    let samples = strings(&[
        "",
        "\n",
        "\n\n",
        "a",
        "a\n",
        "a\r\n",
        "a\r",
        "\r\n",
        "\r",
        "a = 1\nb = 2",
        "x=\ny=\r\nz",
        " lead = 1 \n\ttab\t=\t2\n",
        "[package]\nname = \"n\"\n\n[dependencies]\nserde = \"*\"\n",
        "é = ü\n\u{2003}wide\u{3000}= 1\n",
        "a\n\nb\n\n\n",
    ]);
    for sample in &samples {
        let mut expected: Vec<String> = Vec::new();
        for line in sample.lines() {
            let key = line.split('=').next().unwrap().trim().to_string();
            if !expected.contains(&key) {
                expected.push(key);
            }
        }
        assert_eq!(optimize_dependencies(&vec![sample.clone()]), expected, "sample {:?}", sample);
    }
}
