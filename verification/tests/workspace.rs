use crust_trust::workspace::{add_crate_to_workspace, create_workspace};

const FRESH: &str = "[workspace]\nmembers = []\n";

#[test]
fn new_workspace_has_an_empty_member_list() {
    assert_eq!(create_workspace(false), Some("[workspace]\nmembers = []\n".to_string()));
}

#[test]
fn existing_manifest_is_not_written_over() {
    assert_eq!(create_workspace(true), None);
}

#[test]
fn creating_again_keeps_the_members() {
    let mut on_disk: Option<String> = None;
    if let Some(text) = create_workspace(on_disk.is_some()) {
        on_disk = Some(text);
    }
    on_disk = Some(add_crate_to_workspace(on_disk.as_ref().unwrap(), "core"));
    if let Some(text) = create_workspace(on_disk.is_some()) {
        on_disk = Some(text);
    }
    assert_eq!(on_disk, Some("[workspace]\nmembers = [\"core\"]\n".to_string()));
}

#[test]
fn first_member_of_an_empty_list() {
    assert_eq!(add_crate_to_workspace(FRESH, "core"), "[workspace]\nmembers = [\"core\"]\n");
}

#[test]
fn later_members_follow_a_comma() {
    let one = add_crate_to_workspace(FRESH, "core");
    let two = add_crate_to_workspace(&one, "util");
    assert_eq!(two, "[workspace]\nmembers = [\"core\", \"util\"]\n");
    let three = add_crate_to_workspace(&two, "cli");
    assert_eq!(three, "[workspace]\nmembers = [\"core\", \"util\", \"cli\"]\n");
}

#[test]
fn same_name_twice_is_listed_twice() {
    let one = add_crate_to_workspace(FRESH, "core");
    let two = add_crate_to_workspace(&one, "core");
    assert_eq!(two, "[workspace]\nmembers = [\"core\", \"core\"]\n");
}

#[test]
fn every_registration_adds_one_entry() {
    let names: Vec<String> = (0..25).map(|i| format!("crate_{}", i)).collect();
    let mut manifest = FRESH.to_string();
    for name in &names {
        manifest = add_crate_to_workspace(&manifest, name);
    }
    let quoted: Vec<String> = names.iter().map(|n| format!("\"{}\"", n)).collect();
    assert_eq!(manifest, format!("[workspace]\nmembers = [{}]\n", quoted.join(", ")));
    assert_eq!(manifest.matches('"').count(), 2 * names.len());
}

#[test]
fn order_of_registration_is_order_of_the_list() {
    let ab = add_crate_to_workspace(&add_crate_to_workspace(FRESH, "a"), "b");
    let ba = add_crate_to_workspace(&add_crate_to_workspace(FRESH, "b"), "a");
    assert_eq!(ab, "[workspace]\nmembers = [\"a\", \"b\"]\n");
    assert_eq!(ba, "[workspace]\nmembers = [\"b\", \"a\"]\n");
}

#[test]
fn what_surrounds_the_member_list_is_kept() {
    let manifest = "# top\n[workspace]\nresolver = \"2\"\nmembers = [\"a\"]\n\n[profile.dev]\nopt-level = 1\n";
    assert_eq!(
        add_crate_to_workspace(manifest, "b"),
        "# top\n[workspace]\nresolver = \"2\"\nmembers = [\"a\", \"b\"]\n\n[profile.dev]\nopt-level = 1\n"
    );
}

#[test]
fn manifest_without_member_list_is_unchanged() {
    for manifest in ["", "[workspace]\n", "[package]\nname = \"x\"\n", "members=[]\n", "member = []\n"] {
        assert_eq!(add_crate_to_workspace(manifest, "core"), manifest);
    }
}

#[test]
fn opening_without_closing_bracket() {
    assert_eq!(
        add_crate_to_workspace("[workspace]\nmembers = [\n]\n", "core"),
        "[workspace]\nmembers = [\"core\"]\n]\n"
    );
}

#[test]
fn indented_empty_list_loses_its_indentation() {
    assert_eq!(
        add_crate_to_workspace("[workspace]\n  members = []\n", "core"),
        "[workspace]\nmembers = [\"core\"]\n"
    );
    assert_eq!(
        add_crate_to_workspace("[workspace]\n\tmembers = [  \n", "core"),
        "[workspace]\nmembers = [\"core\"]\n"
    );
}

#[test]
fn indented_list_with_members_keeps_its_indentation() {
    assert_eq!(
        add_crate_to_workspace("[workspace]\n  members = [\"a\"]\n", "b"),
        "[workspace]\n  members = [\"a\", \"b\"]\n"
    );
}

#[test]
fn blank_between_the_brackets_counts_as_empty() {
    assert_eq!(
        add_crate_to_workspace("[workspace]\nmembers = [ ]\n", "core"),
        "[workspace]\nmembers = [\"core\"]\n"
    );
}

#[test]
fn all_closing_brackets_at_the_end_are_replaced_by_one() {
    assert_eq!(
        add_crate_to_workspace("members = [\"a\"]]]\n", "b"),
        "members = [\"a\", \"b\"]\n"
    );
    assert_eq!(add_crate_to_workspace("members = []]\n", "b"), "members = [\"b\"]\n");
}

#[test]
fn text_after_the_closing_bracket_stays_inside() {
    assert_eq!(
        add_crate_to_workspace("members = [\"a\"] # list\n", "b"),
        "members = [\"a\"] # list, \"b\"]\n"
    );
    assert_eq!(add_crate_to_workspace("members = [] \n", "b"), "members = [] , \"b\"]\n");
}

#[test]
fn only_the_first_member_list_is_changed() {
    assert_eq!(
        add_crate_to_workspace("members = [\"a\"]\nmembers = [\"a\"]\n", "b"),
        "members = [\"a\", \"b\"]\nmembers = [\"a\"]\n"
    );
    assert_eq!(
        add_crate_to_workspace("x = \"members = []\"\nmembers = []\n", "b"),
        "x = \"members = []\"\nmembers = [\"b\"]\n"
    );
}

#[test]
fn last_line_without_line_feed() {
    assert_eq!(add_crate_to_workspace("members = []", "a"), "members = [\"a\"]");
    assert_eq!(
        add_crate_to_workspace("[workspace]\nmembers = [\"a\"]", "b"),
        "[workspace]\nmembers = [\"a\", \"b\"]"
    );
}

#[test]
fn carriage_return_before_the_line_feed_is_kept_outside_the_list() {
    assert_eq!(
        add_crate_to_workspace("[workspace]\r\nmembers = []\r\n", "a"),
        "[workspace]\r\nmembers = [\"a\"]\r\n"
    );
    assert_eq!(
        add_crate_to_workspace("[workspace]\r\nmembers = [\"a\"]\r\n", "b"),
        "[workspace]\r\nmembers = [\"a\", \"b\"]\r\n"
    );
}

#[test]
fn carriage_return_at_the_very_end_belongs_to_the_line() {
    assert_eq!(add_crate_to_workspace("members = []\r", "a"), "members = []\r, \"a\"]");
}

#[test]
fn name_is_quoted_as_it_is() {
    assert_eq!(add_crate_to_workspace(FRESH, ""), "[workspace]\nmembers = [\"\"]\n");
    assert_eq!(add_crate_to_workspace(FRESH, "a b"), "[workspace]\nmembers = [\"a b\"]\n");
    assert_eq!(add_crate_to_workspace(FRESH, "é]"), "[workspace]\nmembers = [\"é]\"]\n");
    assert_eq!(
        add_crate_to_workspace("[workspace]\nmembers = [\"é]\"]\n", "ü"),
        "[workspace]\nmembers = [\"é]\", \"ü\"]\n"
    );
}

#[test]
fn unicode_whitespace_around_the_opening() {
    assert_eq!(
        add_crate_to_workspace("\u{a0}\u{2003}members = [\"a\"]\u{3000}\n", "b"),
        "\u{a0}\u{2003}members = [\"a\"]\u{3000}, \"b\"]\n"
    );
    assert_eq!(add_crate_to_workspace("\u{200b}members = []\n", "b"), "\u{200b}members = []\n");
}

fn orders(names: &[&'static str]) -> Vec<Vec<&'static str>> {
    if names.len() <= 1 {
        return vec![names.to_vec()];
    }
    let mut all = Vec::new();
    for i in 0..names.len() {
        let mut rest = names.to_vec();
        let first = rest.remove(i);
        for mut tail in orders(&rest) {
            tail.insert(0, first);
            all.push(tail);
        }
    }
    all
}

#[test]
fn any_order_of_registration_keeps_every_name() {
    let names = ["core", "util", "cli", "net"];
    let all = orders(&names);
    assert_eq!(all.len(), 24);
    for order in all {
        let mut manifest = FRESH.to_string();
        for name in &order {
            manifest = add_crate_to_workspace(&manifest, name);
        }
        let quoted: Vec<String> = order.iter().map(|n| format!("\"{}\"", n)).collect();
        assert_eq!(manifest, format!("[workspace]\nmembers = [{}]\n", quoted.join(", ")));
        for name in names {
            assert_eq!(manifest.matches(&format!("\"{}\"", name)).count(), 1);
        }
    }
}

fn entered_with_string_methods(manifest: &str, name: &str) -> String {
    match manifest.lines().find(|line| line.trim().starts_with("members = [")) {
        None => manifest.to_string(),
        Some(line) => {
            let body = line.trim_end_matches(']');
            let updated = if body.trim() == "members = [" {
                format!("members = [\"{}\"]", name)
            } else {
                format!("{}, \"{}\"]", body, name)
            };
            manifest.replacen(line, &updated, 1)
        }
    }
}

#[test]
fn agrees_with_string_methods_where_the_line_stands_once() {
    let manifests = [
        "",
        "\n",
        "[workspace]\n",
        "[workspace]\nmembers = []\n",
        "[workspace]\nmembers = [\"a\"]\n",
        "[workspace]\r\nmembers = [\"a\", \"b\"]\r\n[other]\r\n",
        "members = [",
        "members = []",
        "members = []\r",
        "  members = [\"a\"]  \n",
        "\u{2003}members = [ ]]]\u{a0}\nnext\n",
        "before\n\tmembers = [\"x\"]]\nafter",
        "members = x\nmembers = [\"y\"]\n",
        "Members = []\nmembers  = []\n members = [\"z\"\n",
        "\n\n\nmembers = [\"a\"\n]\n",
    ];
    for manifest in manifests {
        for name in ["core", "", "a]", "wide\u{3000}"] {
            assert_eq!(
                add_crate_to_workspace(manifest, name),
                entered_with_string_methods(manifest, name),
                "manifest {:?}, name {:?}",
                manifest,
                name
            );
        }
    }
}
