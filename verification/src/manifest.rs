//! Crate manifests: the text written for a new crate, and the keys read
//! back from the manifests of a workspace.
use crate::text::{
    concat_each, find_char, first_index, from_chars, lemma_concat_each_front,
    lemma_lines_after_line, lines, push_str, single_line, split_lines, to_chars, trim, trim_range,
};
use vstd::prelude::*;

verus! {

/// What a crate manifest holds before the crate's name.
pub open spec fn manifest_head() -> Seq<char> {
    "[package]\nname = \""@
}

/// What a crate manifest holds between the crate's name and its
/// dependencies: the placeholder version, the edition, and the heading of
/// the dependency section.
pub open spec fn manifest_middle() -> Seq<char> {
    "\"\nversion = \"0.1.0\"\nedition = \"2021\"\n\n[dependencies]\n"@
}

/// What follows the name of a dependency on its line: a requirement that
/// any version meets.
pub open spec fn any_version() -> Seq<char> {
    " = \"*\"\n"@
}

/// The stub source file of a new crate.
pub open spec fn stub_source() -> Seq<char> {
    "// Default lib.rs content\n"@
}

/// The manifest of the crate `name` that depends on `dependencies`: one
/// line for each dependency, in the order given.
pub open spec fn crate_manifest(name: Seq<char>, dependencies: Seq<Seq<char>>) -> Seq<char> {
    manifest_head() + name + manifest_middle() + concat_each(dependencies, any_version())
}

/// The key of a manifest line: what stands before the first `=`, or the
/// whole line if it has none, without surrounding whitespace.
pub open spec fn key_of(line: Seq<char>) -> Seq<char> {
    trim(line.take(first_index(line, '=')))
}

/// The keys of the lines of a manifest, line by line.
pub open spec fn keys_of(manifest: Seq<char>) -> Seq<Seq<char>> {
    Seq::new(lines(manifest).len(), |i: int| key_of(lines(manifest)[i]))
}

/// The keys of all the lines of `manifests`, manifest by manifest.
pub open spec fn all_keys(manifests: Seq<Seq<char>>) -> Seq<Seq<char>>
    decreases manifests.len(),
{
    if manifests.len() == 0 {
        seq![]
    } else {
        all_keys(manifests.drop_last()) + keys_of(manifests.last())
    }
}

/// The items of `items` without repetitions: each item stands where it
/// first occurred.
pub open spec fn distinct(items: Seq<Seq<char>>) -> Seq<Seq<char>>
    decreases items.len(),
{
    if items.len() == 0 {
        seq![]
    } else {
        let before = distinct(items.drop_last());
        if before.contains(items.last()) {
            before
        } else {
            before.push(items.last())
        }
    }
}

/// `distinct` repeats nothing and holds exactly the items it was given.
pub proof fn lemma_distinct(items: Seq<Seq<char>>)
    ensures
        distinct(items).no_duplicates(),
        forall|x: Seq<char>| distinct(items).contains(x) <==> items.contains(x),
    decreases items.len(),
{
    if items.len() > 0 {
        let front = items.drop_last();
        let before = distinct(front);
        let after = distinct(items);
        lemma_distinct(front);
        assert forall|x: Seq<char>| after.contains(x) <==> items.contains(x) by {
            if after.contains(x) {
                let i = choose|i: int| 0 <= i < after.len() && after[i] == x;
                if i < before.len() {
                    assert(before[i] == x);
                    assert(before.contains(x));
                    assert(front.contains(x));
                    let j = choose|j: int| 0 <= j < front.len() && front[j] == x;
                    assert(items[j] == x);
                } else {
                    assert(items[items.len() - 1] == x);
                }
            }
            if items.contains(x) {
                let j = choose|j: int| 0 <= j < items.len() && items[j] == x;
                if j < front.len() {
                    assert(front[j] == x);
                    assert(front.contains(x));
                }
                if before.contains(x) {
                    let i = choose|i: int| 0 <= i < before.len() && before[i] == x;
                    assert(after[i] == x);
                } else {
                    assert(after[after.len() - 1] == x);
                }
            }
        }
    }
}

/// The line of a manifest that declares the dependency `name`: any version
/// of it will do.
pub open spec fn dependency_line(name: Seq<char>) -> Seq<char> {
    name + " = \"*\""@
}

/// The lines that declare `dependencies`, one for each, in the order given.
pub open spec fn dependency_lines(dependencies: Seq<Seq<char>>) -> Seq<Seq<char>> {
    Seq::new(dependencies.len(), |i: int| dependency_line(dependencies[i]))
}

/// The line of a manifest that names the package.
pub open spec fn name_line(name: Seq<char>) -> Seq<char> {
    "name = \""@ + name + "\""@
}

/// The dependency section of a manifest has one line for each dependency
/// and no other line: each dependency is declared once for each time it was
/// given, with a requirement that any version meets.
pub proof fn lemma_dependency_section_lines(dependencies: Seq<Seq<char>>)
    requires
        forall|i: int| 0 <= i < dependencies.len() ==> single_line(#[trigger] dependencies[i]),
    ensures
        lines(concat_each(dependencies, any_version())) == dependency_lines(dependencies),
    decreases dependencies.len(),
{
    reveal_strlit(" = \"*\"\n");
    reveal_strlit(" = \"*\"");
    if dependencies.len() == 0 {
        assert(lines(concat_each(dependencies, any_version())) =~= dependency_lines(
            dependencies,
        ));
    } else {
        let first = dependencies[0];
        let others = dependencies.skip(1);
        let line = dependency_line(first);
        let rest = concat_each(others, any_version());
        lemma_concat_each_front(dependencies, any_version());
        assert(concat_each(dependencies, any_version()) =~= line + seq!['\n'] + rest);
        assert(single_line(first));
        assert(single_line(line));
        assert forall|i: int| 0 <= i < others.len() implies single_line(
            #[trigger] others[i],
        ) by {
            assert(others[i] == dependencies[i + 1]);
        }
        lemma_dependency_section_lines(others);
        lemma_lines_after_line(line, rest);
        assert(seq![line] + dependency_lines(others) =~= dependency_lines(dependencies));
    }
}

/// The lines of a crate manifest: the package heading, the name, the
/// placeholder version, the edition, an empty line, the heading of the
/// dependency section, and then one line for each dependency and nothing
/// else.
pub proof fn lemma_crate_manifest_lines(name: Seq<char>, dependencies: Seq<Seq<char>>)
    requires
        single_line(name),
        forall|i: int| 0 <= i < dependencies.len() ==> single_line(#[trigger] dependencies[i]),
    ensures
        lines(crate_manifest(name, dependencies)) == seq![
            "[package]"@,
            name_line(name),
            "version = \"0.1.0\""@,
            "edition = \"2021\""@,
            Seq::<char>::empty(),
            "[dependencies]"@,
        ] + dependency_lines(dependencies),
{
    reveal_strlit("[package]\nname = \"");
    reveal_strlit("\"\nversion = \"0.1.0\"\nedition = \"2021\"\n\n[dependencies]\n");
    reveal_strlit("[package]");
    reveal_strlit("name = \"");
    reveal_strlit("\"");
    reveal_strlit("version = \"0.1.0\"");
    reveal_strlit("edition = \"2021\"");
    reveal_strlit("[dependencies]");
    let nl = seq!['\n'];
    let l1 = "[package]"@;
    let l2 = name_line(name);
    let l3 = "version = \"0.1.0\""@;
    let l4 = "edition = \"2021\""@;
    let l5 = Seq::<char>::empty();
    let l6 = "[dependencies]"@;
    let r6 = concat_each(dependencies, any_version());
    let r5 = l6 + nl + r6;
    let r4 = l5 + nl + r5;
    let r3 = l4 + nl + r4;
    let r2 = l3 + nl + r3;
    let r1 = l2 + nl + r2;
    assert(crate_manifest(name, dependencies) =~= l1 + nl + r1);
    lemma_dependency_section_lines(dependencies);
    lemma_lines_after_line(l6, r6);
    lemma_lines_after_line(l5, r5);
    lemma_lines_after_line(l4, r4);
    lemma_lines_after_line(l3, r3);
    assert(single_line(l2));
    lemma_lines_after_line(l2, r2);
    lemma_lines_after_line(l1, r1);
    assert(lines(crate_manifest(name, dependencies)) =~= seq![l1, l2, l3, l4, l5, l6]
        + dependency_lines(dependencies));
}

/// The files of a new crate.
#[derive(Debug, PartialEq, Eq)]
pub struct CrateFiles {
    /// The crate's directory below the workspace root: the crate's name.
    pub directory: String,
    /// The text of the crate's manifest.
    pub manifest: String,
    /// The text of the crate's stub source file.
    pub source: String,
}

/// The name of a manifest file within its directory.
pub fn manifest_file_name() -> (name: &'static str)
    ensures
        name@ == "Cargo.toml"@,
{
    "Cargo.toml"
}

/// The source directory within a crate's directory.
pub fn source_directory() -> (name: &'static str)
    ensures
        name@ == "src"@,
{
    "src"
}

/// The stub source file within a crate's directory.
pub fn source_file_name() -> (name: &'static str)
    ensures
        name@ == "src/lib.rs"@,
{
    "src/lib.rs"
}

/// The files of the crate `crate_name` with the given dependencies: its
/// directory, a manifest that names the package, a placeholder version and
/// one line per dependency that admits any version, and a stub source file.
pub fn create_crate_with_dependencies(crate_name: &str, dependencies: &Vec<String>) -> (files:
    CrateFiles)
    ensures
        files.directory@ == crate_name@,
        files.manifest@ == crate_manifest(crate_name@, dependencies.deep_view()),
        files.source@ == stub_source(),
{
    let mut out: Vec<char> = Vec::new();
    push_str(&mut out, "[package]\nname = \"");
    push_str(&mut out, crate_name);
    push_str(&mut out, "\"\nversion = \"0.1.0\"\nedition = \"2021\"\n\n[dependencies]\n");
    let ghost head = out@;
    let ghost deps = dependencies.deep_view();
    assert(head =~= manifest_head() + crate_name@ + manifest_middle());
    let mut i: usize = 0;
    assert(deps.take(0) =~= seq![]);
    while i < dependencies.len()
        invariant
            i <= dependencies.len(),
            deps == dependencies.deep_view(),
            out@ == head + concat_each(deps.take(i as int), any_version()),
        decreases dependencies.len() - i,
    {
        proof {
            assert(deps.take(i + 1).drop_last() =~= deps.take(i as int));
            assert(deps.take(i + 1).last() == dependencies[i as int]@);
        }
        push_str(&mut out, dependencies[i].as_str());
        push_str(&mut out, " = \"*\"\n");
        assert(out@ =~= head + concat_each(deps.take(i + 1), any_version()));
        i += 1;
    }
    assert(deps.take(i as int) =~= deps);
    CrateFiles {
        directory: crate_name.to_owned(),
        manifest: from_chars(&out, 0, out.len()),
        source: "// Default lib.rs content\n".to_owned(),
    }
}

/// The key of the manifest line `line`.
pub fn line_key(line: &str) -> (key: String)
    ensures
        key@ == key_of(line@),
{
    let v = to_chars(line);
    let n = v.len();
    let eq = find_char(&v, 0, n, '=');
    assert(v@.subrange(0, n as int) =~= v@);
    let (a, b) = trim_range(&v, 0, eq);
    from_chars(&v, a, b)
}

/// Whether one of `items` is `item`.
fn holds(items: &Vec<String>, item: &String) -> (found: bool)
    ensures
        found == items.deep_view().contains(item@),
{
    let mut i: usize = 0;
    while i < items.len()
        invariant
            i <= items.len(),
            forall|j: int| 0 <= j < i ==> items.deep_view()[j] != item@,
        decreases items.len() - i,
    {
        if items[i] == *item {
            assert(items.deep_view()[i as int] == item@);
            return true;
        }
        i += 1;
    }
    false
}

/// Gathers the keys that the manifests of a workspace declare: for every
/// line of every manifest what stands before its first `=`, each key once,
/// in the order of first occurrence.
pub fn optimize_dependencies(manifests: &Vec<String>) -> (shared: Vec<String>)
    ensures
        shared.deep_view() == distinct(all_keys(manifests.deep_view())),
        shared.deep_view().no_duplicates(),
        forall|key: Seq<char>|
            shared.deep_view().contains(key) <==> all_keys(manifests.deep_view()).contains(key),
{
    let mut shared: Vec<String> = Vec::new();
    let ghost texts = manifests.deep_view();
    let mut i: usize = 0;
    assert(texts.take(0) =~= seq![]);
    assert(shared.deep_view() =~= seq![]);
    while i < manifests.len()
        invariant
            i <= manifests.len(),
            texts == manifests.deep_view(),
            shared.deep_view() == distinct(all_keys(texts.take(i as int))),
        decreases manifests.len() - i,
    {
        let chars = to_chars(manifests[i].as_str());
        let found = split_lines(&chars);
        let ghost done = all_keys(texts.take(i as int));
        let ghost keys = keys_of(texts[i as int]);
        let mut j: usize = 0;
        assert(done + keys.take(0) =~= done);
        while j < found.len()
            invariant
                j <= found.len(),
                found.deep_view() == lines(texts[i as int]),
                keys == keys_of(texts[i as int]),
                shared.deep_view() == distinct(done + keys.take(j as int)),
            decreases found.len() - j,
        {
            let key = line_key(found[j].as_str());
            let ghost before = shared.deep_view();
            proof {
                let seen = done + keys.take(j as int);
                let next = done + keys.take(j + 1);
                assert(next.drop_last() =~= seen);
                assert(next.last() == key@);
            }
            if !holds(&shared, &key) {
                shared.push(key);
                assert(shared.deep_view() =~= before.push(key@));
            }
            j += 1;
        }
        proof {
            assert(keys.take(j as int) =~= keys);
            assert(texts.take(i + 1).drop_last() =~= texts.take(i as int));
            assert(texts.take(i + 1).last() == texts[i as int]);
        }
        i += 1;
    }
    proof {
        assert(texts.take(i as int) =~= texts);
        lemma_distinct(all_keys(texts));
    }
    shared
}

} // verus!
