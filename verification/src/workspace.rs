//! The workspace manifest: how it starts out and how a crate is entered
//! into its member list.
//!
//! The manifest is treated as plain text. The member list is the first line
//! that, apart from surrounding whitespace, begins with `members = [`; a new
//! member is written into that line and the rest of the text is left as it
//! is.
use crate::registry::{
    collected, has_name, is_requested, lemma_collected_distinct, lemma_registered_is_requested,
    names_of, parse_token,
};
use crate::text::{
    find_char, first_index, first_line, from_chars, lemma_first_index, lemma_first_index_concat,
    lemma_first_index_is, lemma_strip_trailing_is, lemma_trim_end_is, lemma_trim_start_is,
    line_content_end, push_range, push_str, range_equals, range_starts_with, single_line,
    strip_trailing, strip_trailing_range, to_chars, trim, trim_range,
};
use vstd::prelude::*;

verus! {

/// The text with which a member list opens.
pub open spec fn members_opening() -> Seq<char> {
    "members = ["@
}

/// The manifest of a workspace without members.
pub open spec fn initial_manifest() -> Seq<char> {
    "[workspace]\nmembers = []\n"@
}

/// Whether `line` is one that opens the member list.
pub open spec fn opens_member_list(line: Seq<char>) -> bool {
    members_opening().is_prefix_of(trim(line))
}

/// `position`, moved forward by `by` characters.
pub open spec fn shifted(position: Option<int>, by: int) -> Option<int> {
    match position {
        Some(k) => Some(by + k),
        None => None,
    }
}

/// Where the first line that opens the member list begins, if there is one.
pub open spec fn member_line_start(t: Seq<char>) -> Option<int>
    decreases t.len(),
{
    let i = first_index(t, '\n');
    if t.len() == 0 {
        None
    } else if opens_member_list(first_line(t)) {
        Some(0)
    } else if 0 <= i < t.len() {
        shifted(member_line_start(t.skip(i + 1)), i + 1)
    } else {
        None
    }
}

/// `name` between double quotes.
pub open spec fn quoted(name: Seq<char>) -> Seq<char> {
    seq!['"'] + name + seq!['"']
}

/// The member-list line `line` after `name` has been entered. Closing
/// brackets at the end of the line are taken off first. If what is left is
/// just the opening, the list was empty and `name` becomes its first entry;
/// otherwise `name` is added after a comma. The bracket is then closed again.
pub open spec fn line_with_member(line: Seq<char>, name: Seq<char>) -> Seq<char> {
    let body = strip_trailing(line, ']');
    if trim(body) == members_opening() {
        members_opening() + quoted(name) + seq![']']
    } else {
        body + seq![',', ' '] + quoted(name) + seq![']']
    }
}

/// The manifest `t` after `name` has been entered into its member list. A
/// manifest without a member list stays as it is.
pub open spec fn with_member(t: Seq<char>, name: Seq<char>) -> Seq<char> {
    match member_line_start(t) {
        None => t,
        Some(s) => {
            let line = first_line(t.skip(s));
            t.take(s) + line_with_member(line, name) + t.skip(s + line.len())
        },
    }
}

/// The manifest `t` after each of `names` has been entered, one after the
/// other.
pub open spec fn with_members(t: Seq<char>, names: Seq<Seq<char>>) -> Seq<char>
    decreases names.len(),
{
    if names.len() == 0 {
        t
    } else {
        with_member(with_members(t, names.drop_last()), names.last())
    }
}

/// The entries of a member list that holds `names`: each name between
/// double quotes, with a comma and a space between two entries.
pub open spec fn member_entries(names: Seq<Seq<char>>) -> Seq<char>
    decreases names.len(),
{
    if names.len() == 0 {
        seq![]
    } else if names.len() == 1 {
        quoted(names[0])
    } else {
        member_entries(names.drop_last()) + seq![',', ' '] + quoted(names.last())
    }
}

/// The line of a member list that holds `names`.
pub open spec fn member_line(names: Seq<Seq<char>>) -> Seq<char> {
    members_opening() + member_entries(names) + seq![']']
}

/// What has to be written when a workspace is created: the manifest of a
/// workspace without members if there is no manifest yet, and nothing if
/// there is one.
pub open spec fn manifest_to_write(manifest_exists: bool) -> Option<Seq<char>> {
    if manifest_exists {
        None
    } else {
        Some(initial_manifest())
    }
}

/// The root manifest after the workspace has been created, given the
/// manifest that was there before, if any.
pub open spec fn manifest_after_creation(existing: Option<Seq<char>>) -> Seq<char> {
    match manifest_to_write(existing is Some) {
        Some(text) => text,
        None => existing->0,
    }
}

/// Creating a workspace where there is one already changes nothing:
/// whatever manifest is there, member list included, is still there
/// afterwards, and creating it a second time gives what the first time
/// gave.
pub proof fn lemma_creation_is_idempotent(existing: Option<Seq<char>>)
    ensures
        existing matches Some(text) ==> manifest_after_creation(existing) == text,
        manifest_after_creation(Some(manifest_after_creation(existing)))
            == manifest_after_creation(existing),
{
}

/// The entries of a list that is not empty end with a double quote.
proof fn lemma_member_entries_end(names: Seq<Seq<char>>)
    requires
        names.len() > 0,
    ensures
        member_entries(names).len() >= 2,
        member_entries(names).last() == '"',
{
}

/// The entries of names that hold no line feed hold none either.
proof fn lemma_member_entries_single_line(names: Seq<Seq<char>>)
    requires
        forall|i: int| 0 <= i < names.len() ==> single_line(#[trigger] names[i]),
    ensures
        single_line(member_entries(names)),
        single_line(member_line(names)),
    decreases names.len(),
{
    reveal_strlit("members = [");
    if names.len() > 1 {
        lemma_member_entries_single_line(names.drop_last());
        assert(single_line(names.last()));
    } else if names.len() == 1 {
        assert(single_line(names[0]));
    }
}

/// Entering a name into the line of a member list gives the line of the
/// list with that name at its end, whatever the names are.
pub proof fn lemma_line_with_member(names: Seq<Seq<char>>, name: Seq<char>)
    ensures
        line_with_member(member_line(names), name) == member_line(names.push(name)),
{
    reveal_strlit("members = [");
    let opening = members_opening();
    let line = member_line(names);
    let body = opening + member_entries(names);
    assert(names.push(name).drop_last() =~= names);
    if names.len() > 0 {
        lemma_member_entries_end(names);
    }
    assert(line.take(body.len() as int) =~= body);
    lemma_strip_trailing_is(line, ']', body.len() as int);
    lemma_trim_start_is(body, 0);
    lemma_trim_end_is(body, body.len() as int);
    assert(body.skip(0) =~= body);
    assert(body.take(body.len() as int) =~= body);
    assert(trim(body) == body);
    if names.len() == 0 {
        assert(body =~= opening);
        assert(member_line(names.push(name)) =~= opening + quoted(name) + seq![']']);
    } else {
        assert(body.len() > opening.len());
        assert(member_line(names.push(name)) =~= body + seq![',', ' '] + quoted(name) + seq![
            ']',
        ]);
    }
}

/// The line of a member list opens a member list.
proof fn lemma_member_line_opens(names: Seq<Seq<char>>)
    ensures
        opens_member_list(member_line(names)),
{
    reveal_strlit("members = [");
    let line = member_line(names);
    lemma_trim_start_is(line, 0);
    lemma_trim_end_is(line, line.len() as int);
    assert(line.skip(0) =~= line);
    assert(line.take(line.len() as int) =~= line);
    assert(line.subrange(0, members_opening().len() as int) =~= members_opening());
}

/// A text that ends its last line and holds no member list does not change
/// where the member list of what follows it is found.
pub proof fn lemma_member_line_start_after(pre: Seq<char>, rest: Seq<char>)
    requires
        pre.len() > 0 ==> pre.last() == '\n',
        member_line_start(pre) is None,
    ensures
        member_line_start(pre + rest) == shifted(member_line_start(rest), pre.len() as int),
    decreases pre.len(),
{
    if pre.len() == 0 {
        assert(pre + rest =~= rest);
    } else {
        let t = pre + rest;
        let i = first_index(pre, '\n');
        lemma_first_index(pre, '\n');
        lemma_first_index_concat(pre, rest, '\n');
        assert(i < pre.len()) by {
            if i >= pre.len() {
                assert(pre[pre.len() - 1] != '\n');
            }
        }
        assert(t.take(i) =~= pre.take(i));
        assert(first_line(t) == first_line(pre));
        let tail = pre.skip(i + 1);
        assert(t.skip(i + 1) =~= tail + rest);
        if tail.len() > 0 {
            assert(tail.last() == pre.last());
        }
        lemma_member_line_start_after(tail, rest);
    }
}

/// Entering a name into a manifest whose member list holds `names` gives
/// the same manifest with the name at the end of the list. `pre` is what
/// stands before the line of the member list and `post` what stands after
/// it; nothing of either is changed.
pub proof fn lemma_with_member_appends(
    pre: Seq<char>,
    names: Seq<Seq<char>>,
    post: Seq<char>,
    name: Seq<char>,
)
    requires
        pre.len() > 0 ==> pre.last() == '\n',
        member_line_start(pre) is None,
        post.len() > 0 ==> post[0] == '\n',
        forall|i: int| 0 <= i < names.len() ==> single_line(#[trigger] names[i]),
    ensures
        with_member(pre + member_line(names) + post, name) == pre + member_line(names.push(name))
            + post,
{
    let line = member_line(names);
    let rest = line + post;
    let t = pre + line + post;
    assert(t =~= pre + rest);
    lemma_member_entries_single_line(names);
    lemma_first_index_concat(line, post, '\n');
    lemma_first_index_is(line, '\n', line.len() as int);
    lemma_first_index(post, '\n');
    assert(first_index(rest, '\n') == line.len());
    assert(rest.take(line.len() as int) =~= line);
    assert(line.last() == ']');
    if post.len() == 0 {
        assert(rest =~= line);
    }
    assert(first_line(rest) == line);
    lemma_member_line_opens(names);
    assert(member_line_start(rest) == Some(0int));
    lemma_member_line_start_after(pre, rest);
    assert(member_line_start(t) == Some(pre.len() as int));
    assert(t.skip(pre.len() as int) =~= rest);
    assert(t.take(pre.len() as int) =~= pre);
    assert(t.skip((pre.len() + line.len()) as int) =~= post);
    lemma_line_with_member(names, name);
}

/// Entering names one after the other into a manifest whose member list
/// holds `existing` gives the same manifest with all of them at the end of
/// the list, in the order in which they were entered and each as often as
/// it was entered: nothing is lost and nothing is merged.
pub proof fn lemma_with_members_appends(
    pre: Seq<char>,
    existing: Seq<Seq<char>>,
    post: Seq<char>,
    names: Seq<Seq<char>>,
)
    requires
        pre.len() > 0 ==> pre.last() == '\n',
        member_line_start(pre) is None,
        post.len() > 0 ==> post[0] == '\n',
        forall|i: int| 0 <= i < existing.len() ==> single_line(#[trigger] existing[i]),
        forall|i: int| 0 <= i < names.len() ==> single_line(#[trigger] names[i]),
    ensures
        with_members(pre + member_line(existing) + post, names) == pre + member_line(
            existing + names,
        ) + post,
    decreases names.len(),
{
    if names.len() == 0 {
        assert(existing + names =~= existing);
    } else {
        let front = names.drop_last();
        lemma_with_members_appends(pre, existing, post, front);
        let held = existing + front;
        assert forall|i: int| 0 <= i < held.len() implies single_line(#[trigger] held[i]) by {
            if i < existing.len() {
                assert(held[i] == existing[i]);
            } else {
                assert(held[i] == front[i - existing.len()]);
                assert(held[i] == names[i - existing.len()]);
            }
        }
        lemma_with_member_appends(pre, held, post, names.last());
        assert(held.push(names.last()) =~= existing + names);
    }
}

/// Entering names into the manifest of a new workspace gives a manifest
/// whose member list holds exactly these names, in the order in which they
/// were entered and each as often as it was entered.
pub proof fn lemma_new_workspace_members(names: Seq<Seq<char>>)
    requires
        forall|i: int| 0 <= i < names.len() ==> single_line(#[trigger] names[i]),
    ensures
        with_members(initial_manifest(), names) == "[workspace]\n"@ + member_line(names)
            + "\n"@,
{
    reveal_strlit("[workspace]\nmembers = []\n");
    reveal_strlit("[workspace]\n");
    reveal_strlit("members = [");
    reveal_strlit("\n");
    let pre = "[workspace]\n"@;
    let post = "\n"@;
    let none = Seq::<Seq<char>>::empty();
    assert(initial_manifest() =~= pre + member_line(none) + post);
    lemma_first_index_is(pre, '\n', 11);
    assert(pre.skip(12) =~= Seq::<char>::empty());
    let heading = first_line(pre);
    assert(heading =~= pre.take(11));
    lemma_trim_start_is(heading, 0);
    lemma_trim_end_is(heading, 11);
    assert(heading.skip(0) =~= heading);
    assert(heading.take(11) =~= heading);
    assert(!opens_member_list(heading)) by {
        assert(trim(heading)[0] == '[');
        if members_opening().is_prefix_of(trim(heading)) {
            assert(trim(heading).subrange(0, 11)[0] == members_opening()[0]);
        }
    }
    assert(member_line_start(pre.skip(12)) is None);
    assert(member_line_start(pre) is None);
    lemma_with_members_appends(pre, none, post, names);
    assert(none + names =~= names);
}

/// A new workspace into which the crates of a registry are entered lists
/// each crate that the tokens ask for exactly once, however often its name
/// was given, and lists nothing else.
pub proof fn lemma_new_workspace_lists_requested(tokens: Seq<Seq<char>>)
    requires
        forall|k: int| 0 <= k < tokens.len() ==> single_line(#[trigger] tokens[k]),
    ensures
        with_members(initial_manifest(), names_of(collected(tokens))) == "[workspace]\n"@
            + member_line(names_of(collected(tokens))) + "\n"@,
        names_of(collected(tokens)).no_duplicates(),
        tokens.len() > 0 ==> forall|name: Seq<char>|
            names_of(collected(tokens)).contains(name) <==> is_requested(tokens, name),
{
    let entries = collected(tokens);
    let names = names_of(entries);
    lemma_collected_distinct(tokens);
    assert forall|i: int| 0 <= i < names.len() implies single_line(#[trigger] names[i]) by {
        if tokens.len() == 0 {
            reveal_strlit("default_project");
        } else {
            assert(entries[i].name == names[i]);
            lemma_registered_is_requested(tokens, names[i]);
            let k = choose|k: int|
                0 <= k < tokens.len() && parse_token(#[trigger] tokens[k]) is Some
                    && parse_token(tokens[k])->0.name == names[i];
            lemma_first_index(tokens[k], ':');
            assert(single_line(tokens[k]));
        }
    }
    lemma_new_workspace_members(names);
    assert forall|i: int, j: int| 0 <= i < names.len() && 0 <= j < names.len() && i != j implies
        names[i] != names[j] by {
        assert(entries[i].name == names[i] && entries[j].name == names[j]);
    }
    if tokens.len() > 0 {
        assert forall|name: Seq<char>| names.contains(name) <==> is_requested(tokens, name) by {
            lemma_registered_is_requested(tokens, name);
            if names.contains(name) {
                let i = choose|i: int| 0 <= i < names.len() && names[i] == name;
                assert(entries[i].name == name);
            }
            if has_name(entries, name) {
                let i = choose|i: int| 0 <= i < entries.len() && #[trigger] entries[i].name == name;
                assert(names[i] == name);
            }
        }
    }
}

/// Creates the root manifest of a workspace unless there is one already:
/// gives the manifest to write, or nothing if `manifest_exists`. An
/// existing manifest is never written over, so its member list stays as it
/// is.
pub fn create_workspace(manifest_exists: bool) -> (to_write: Option<String>)
    ensures
        to_write is None <==> manifest_exists,
        to_write matches Some(text) ==> Some(text@) == manifest_to_write(manifest_exists),
{
    if manifest_exists {
        None
    } else {
        Some("[workspace]\nmembers = []\n".to_owned())
    }
}

/// Appends `name` between double quotes, then a closing bracket.
fn push_entry(out: &mut Vec<char>, name: &str)
    ensures
        final(out)@ == old(out)@ + quoted(name@) + seq![']'],
{
    out.push('"');
    push_str(out, name);
    out.push('"');
    out.push(']');
    assert(out@ =~= old(out)@ + quoted(name@) + seq![']']);
}

/// Enters `crate_name` into the member list of the workspace manifest
/// `manifest` and returns the new manifest.
pub fn add_crate_to_workspace(manifest: &str, crate_name: &str) -> (patched: String)
    ensures
        patched@ == with_member(manifest@, crate_name@),
{
    let v = to_chars(manifest);
    let opening = to_chars("members = [");
    let n = v.len();
    let mut pos: usize = 0;
    assert(v@.skip(0) =~= v@);
    while pos < n
        invariant
            pos <= n == v.len(),
            v@ == manifest@,
            opening@ == members_opening(),
            member_line_start(v@) == shifted(member_line_start(v@.skip(pos as int)), pos as int),
        ensures
            member_line_start(v@) is None,
        decreases n - pos,
    {
        let brk = find_char(&v, pos, n, '\n');
        let end = line_content_end(&v, pos, brk);
        let (a, b) = trim_range(&v, pos, end);
        if range_starts_with(&v, a, b, &opening) {
            let body_end = strip_trailing_range(&v, pos, end, ']');
            let (c, d) = trim_range(&v, pos, body_end);
            let mut out: Vec<char> = Vec::new();
            push_range(&mut out, &v, 0, pos);
            if range_equals(&v, c, d, &opening) {
                push_str(&mut out, "members = [");
            } else {
                push_range(&mut out, &v, pos, body_end);
                out.push(',');
                out.push(' ');
            }
            push_entry(&mut out, crate_name);
            push_range(&mut out, &v, end, n);
            proof {
                let line = first_line(v@.skip(pos as int));
                assert(member_line_start(v@) == Some(pos as int));
                assert(line == v@.subrange(pos as int, end as int));
                assert(v@.skip(pos + line.len()) =~= v@.subrange(end as int, n as int));
                assert(out@ =~= v@.take(pos as int) + line_with_member(line, crate_name@)
                    + v@.skip(pos + line.len()));
            }
            return from_chars(&out, 0, out.len());
        }
        if brk >= n {
            break ;
        }
        proof {
            assert(v@.skip(pos as int).skip(brk - pos + 1) =~= v@.skip(brk + 1));
        }
        pos = brk + 1;
    }
    manifest.to_owned()
}

} // verus!
