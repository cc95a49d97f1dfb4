//! Crate specifications and the registry that holds them.
//!
//! A crate specification is read from a token of the form
//! `name:dep1,dep2,...`. The registry keeps one specification per crate
//! name, in the order in which the names first appeared; a later
//! specification for a name replaces the earlier one.
use crate::text::{
    find_char, first_index, from_chars, join, lemma_first_index, lemma_first_index_concat,
    lemma_first_index_is, lemma_split_join, push_str, split, split_range, to_chars,
};
use vstd::prelude::*;

verus! {

/// What a crate specification says: the crate's name and the names of the
/// crates it depends on, in the order given.
pub struct CrateSpecModel {
    pub name: Seq<char>,
    pub dependencies: Seq<Seq<char>>,
}

/// One crate to create, with its dependencies.
#[derive(Debug, PartialEq, Eq)]
pub struct CrateSpec {
    pub name: String,
    pub dependencies: Vec<String>,
}

impl View for CrateSpec {
    type V = CrateSpecModel;

    open spec fn view(&self) -> CrateSpecModel {
        CrateSpecModel { name: self.name@, dependencies: self.dependencies.deep_view() }
    }
}

impl DeepView for CrateSpec {
    type V = CrateSpecModel;

    open spec fn deep_view(&self) -> CrateSpecModel {
        self@
    }
}

/// The name of the crate that is created when no crate is asked for.
pub open spec fn default_name() -> Seq<char> {
    "default_project"@
}

/// The dependency names in the part of a token after the colon: none if
/// that part is empty, else its pieces between commas.
pub open spec fn dependency_list(s: Seq<char>) -> Seq<Seq<char>> {
    if s.len() == 0 {
        seq![]
    } else {
        split(s, ',')
    }
}

/// The specification that `token` stands for. The name is what precedes the
/// first colon. A token without a colon stands for nothing.
pub open spec fn parse_token(token: Seq<char>) -> Option<CrateSpecModel> {
    let i = first_index(token, ':');
    if 0 <= i < token.len() {
        Some(CrateSpecModel { name: token.take(i), dependencies: dependency_list(token.skip(i + 1)) })
    } else {
        None
    }
}

/// Position of the first entry named `name`, or `entries.len()` if there is
/// none.
pub open spec fn position_of(entries: Seq<CrateSpecModel>, name: Seq<char>) -> int
    decreases entries.len(),
{
    if entries.len() == 0 || entries[0].name == name {
        0
    } else {
        1 + position_of(entries.skip(1), name)
    }
}

/// Whether an entry of `entries` is named `name`.
pub open spec fn has_name(entries: Seq<CrateSpecModel>, name: Seq<char>) -> bool {
    exists|i: int| 0 <= i < entries.len() && #[trigger] entries[i].name == name
}

/// Whether no two entries have the same name.
pub open spec fn distinct_names(entries: Seq<CrateSpecModel>) -> bool {
    forall|i: int, j: int|
        0 <= i < j < entries.len() ==> #[trigger] entries[i].name != #[trigger] entries[j].name
}

/// `entries` after `spec` has been registered: it takes the place of the
/// entry with its name, or goes to the end if there is no such entry.
pub open spec fn upsert(entries: Seq<CrateSpecModel>, spec: CrateSpecModel) -> Seq<
    CrateSpecModel,
> {
    let i = position_of(entries, spec.name);
    if 0 <= i < entries.len() {
        entries.update(i, spec)
    } else {
        entries.push(spec)
    }
}

/// The entries registered by `tokens`, read one after the other. Tokens that
/// stand for nothing are passed over.
pub open spec fn collect_from(tokens: Seq<Seq<char>>) -> Seq<CrateSpecModel>
    decreases tokens.len(),
{
    if tokens.len() == 0 {
        seq![]
    } else {
        let before = collect_from(tokens.drop_last());
        match parse_token(tokens.last()) {
            Some(spec) => upsert(before, spec),
            None => before,
        }
    }
}

/// The registry built from `tokens`. Without any token it holds the default
/// crate, which has no dependencies.
pub open spec fn collected(tokens: Seq<Seq<char>>) -> Seq<CrateSpecModel> {
    if tokens.len() == 0 {
        seq![CrateSpecModel { name: default_name(), dependencies: seq![] }]
    } else {
        collect_from(tokens)
    }
}

/// The names of `entries`, in order.
pub open spec fn names_of(entries: Seq<CrateSpecModel>) -> Seq<Seq<char>> {
    Seq::new(entries.len(), |i: int| entries[i].name)
}

/// `entries` as a mapping from each name to the dependencies of the first
/// entry with that name.
pub open spec fn as_map(entries: Seq<CrateSpecModel>) -> Map<Seq<char>, Seq<Seq<char>>> {
    Map::new(
        |name: Seq<char>| has_name(entries, name),
        |name: Seq<char>| entries[position_of(entries, name)].dependencies,
    )
}

/// `position_of` stays within the sequence, no entry before it has the
/// name, and the entry at it has the name.
pub proof fn lemma_position_of(entries: Seq<CrateSpecModel>, name: Seq<char>)
    ensures
        0 <= position_of(entries, name) <= entries.len(),
        forall|j: int| 0 <= j < position_of(entries, name) ==> entries[j].name != name,
        position_of(entries, name) < entries.len() ==> entries[position_of(entries, name)].name
            == name,
        position_of(entries, name) < entries.len() <==> has_name(entries, name),
    decreases entries.len(),
{
    if entries.len() == 0 || entries[0].name == name {
    } else {
        let rest = entries.skip(1);
        lemma_position_of(rest, name);
        let p = position_of(entries, name);
        assert forall|j: int| 0 <= j < p implies entries[j].name != name by {
            if j > 0 {
                assert(rest[j - 1] == entries[j]);
            }
        }
        if p < entries.len() {
            assert(rest[p - 1] == entries[p]);
        }
        if has_name(entries, name) {
            let i = choose|i: int| 0 <= i < entries.len() && #[trigger] entries[i].name == name;
            assert(rest[i - 1].name == name);
        }
    }
}

/// An index whose entry has the name, or which is the length, and before
/// which no entry has the name, is the `position_of` the name.
pub proof fn lemma_position_of_is(entries: Seq<CrateSpecModel>, name: Seq<char>, k: int)
    requires
        0 <= k <= entries.len(),
        forall|j: int| 0 <= j < k ==> entries[j].name != name,
        k < entries.len() ==> entries[k].name == name,
    ensures
        position_of(entries, name) == k,
    decreases entries.len(),
{
    if entries.len() == 0 || entries[0].name == name {
    } else {
        let rest = entries.skip(1);
        assert forall|j: int| 0 <= j < k - 1 implies rest[j].name != name by {
            assert(rest[j] == entries[j + 1]);
        }
        lemma_position_of_is(rest, name, k - 1);
    }
}

/// Registering keeps names distinct.
pub proof fn lemma_upsert_distinct(entries: Seq<CrateSpecModel>, spec: CrateSpecModel)
    requires
        distinct_names(entries),
    ensures
        distinct_names(upsert(entries, spec)),
{
    lemma_position_of(entries, spec.name);
}

/// Registering a specification is an insertion into the mapping from names
/// to dependencies: the new dependencies stand under the name and every
/// other name keeps its own.
pub proof fn lemma_upsert_as_map(entries: Seq<CrateSpecModel>, spec: CrateSpecModel)
    requires
        distinct_names(entries),
    ensures
        as_map(upsert(entries, spec)) == as_map(entries).insert(spec.name, spec.dependencies),
{
    let after = upsert(entries, spec);
    let p = position_of(entries, spec.name);
    lemma_position_of(entries, spec.name);
    assert forall|name: Seq<char>| has_name(after, name) <==> (name == spec.name || has_name(
        entries,
        name,
    )) by {
        if has_name(after, name) {
            let i = choose|i: int| 0 <= i < after.len() && #[trigger] after[i].name == name;
            if i != p {
                assert(entries[i].name == name);
            }
        }
        if has_name(entries, name) {
            let i = choose|i: int| 0 <= i < entries.len() && #[trigger] entries[i].name == name;
            if i != p {
                assert(after[i].name == name);
            } else {
                assert(after[p].name == name);
            }
        }
        if name == spec.name {
            assert(after[p].name == name);
        }
    }
    assert forall|name: Seq<char>| has_name(after, name) implies #[trigger] as_map(after)[name]
        == as_map(entries).insert(spec.name, spec.dependencies)[name] by {
        lemma_position_of(after, name);
        lemma_position_of(entries, name);
        if name == spec.name {
            lemma_position_of_is(after, name, p);
        } else {
            let r = position_of(entries, name);
            assert(after[r].name == name);
            assert forall|j: int| 0 <= j < r implies after[j].name != name by {
                if j != p {
                    assert(after[j] == entries[j]);
                }
            }
            lemma_position_of_is(after, name, r);
        }
    }
    assert(as_map(after) =~= as_map(entries).insert(spec.name, spec.dependencies));
}

/// The registry built from any tokens holds no name twice.
pub proof fn lemma_collected_distinct(tokens: Seq<Seq<char>>)
    ensures
        distinct_names(collect_from(tokens)),
        distinct_names(collected(tokens)),
    decreases tokens.len(),
{
    if tokens.len() > 0 {
        lemma_collected_distinct(tokens.drop_last());
        match parse_token(tokens.last()) {
            Some(spec) => lemma_upsert_distinct(collect_from(tokens.drop_last()), spec),
            None => {},
        }
    }
}

/// A token stands for nothing exactly if it holds no colon.
pub proof fn lemma_malformed_has_no_colon(token: Seq<char>)
    ensures
        parse_token(token) is None <==> !token.contains(':'),
{
    lemma_first_index(token, ':');
    let i = first_index(token, ':');
    if i < token.len() {
        assert(token[i] == ':');
    }
}

/// A token made of a name without colon, a colon, and dependency names
/// without comma that are joined by commas stands for exactly that name and
/// those dependencies. A single dependency must not be empty: nothing after
/// the colon means no dependency.
pub proof fn lemma_parse_token_of(name: Seq<char>, dependencies: Seq<Seq<char>>)
    requires
        !name.contains(':'),
        forall|i: int, j: int|
            0 <= i < dependencies.len() && 0 <= j < dependencies[i].len()
                ==> #[trigger] dependencies[i][j] != ',',
        dependencies.len() == 1 ==> dependencies[0].len() > 0,
    ensures
        parse_token(name + seq![':'] + join(dependencies, ','))
            == Some(CrateSpecModel { name, dependencies }),
{
    let listed = join(dependencies, ',');
    let tail = seq![':'] + listed;
    let token = name + seq![':'] + listed;
    assert(token =~= name + tail);
    assert forall|j: int| 0 <= j < name.len() implies name[j] != ':' by {
        if name[j] == ':' {
            assert(name.contains(':'));
        }
    }
    lemma_first_index_is(name, ':', name.len() as int);
    lemma_first_index_is(tail, ':', 0);
    lemma_first_index_concat(name, tail, ':');
    assert(token.take(name.len() as int) =~= name);
    assert(token.skip(name.len() as int + 1) =~= listed);
    if dependencies.len() == 0 {
        assert(dependency_list(listed) =~= dependencies);
    } else {
        lemma_split_join(dependencies, ',');
        if dependencies.len() > 1 {
            assert(listed.len() > 0);
        }
    }
}

/// A token that stands for nothing leaves no trace: the registry is the one
/// that the other tokens give.
pub proof fn lemma_malformed_token_ignored(
    before: Seq<Seq<char>>,
    token: Seq<char>,
    after: Seq<Seq<char>>,
)
    requires
        parse_token(token) is None,
    ensures
        collect_from(before.push(token) + after) == collect_from(before + after),
    decreases after.len(),
{
    if after.len() == 0 {
        assert(before.push(token) + after =~= before.push(token));
        assert(before + after =~= before);
        assert(before.push(token).drop_last() =~= before);
    } else {
        let front = after.drop_last();
        lemma_malformed_token_ignored(before, token, front);
        assert((before.push(token) + after).drop_last() =~= before.push(token) + front);
        assert((before + after).drop_last() =~= before + front);
        assert((before.push(token) + after).last() == after.last());
        assert((before + after).last() == after.last());
    }
}

/// Tokens that all stand for nothing register nothing. The default crate
/// is not put in their place: it stands for an input without any token.
pub proof fn lemma_only_malformed_tokens(tokens: Seq<Seq<char>>)
    requires
        forall|i: int| 0 <= i < tokens.len() ==> parse_token(#[trigger] tokens[i]) is None,
    ensures
        collect_from(tokens) == Seq::<CrateSpecModel>::empty(),
        tokens.len() > 0 ==> collected(tokens) == Seq::<CrateSpecModel>::empty(),
        tokens.len() == 0 ==> collected(tokens) == seq![
            CrateSpecModel { name: default_name(), dependencies: seq![] },
        ],
    decreases tokens.len(),
{
    if tokens.len() > 0 {
        lemma_only_malformed_tokens(tokens.drop_last());
        assert(parse_token(tokens[tokens.len() - 1]) is None);
    }
}

/// Of two tokens with the same name the later one counts: reading one more
/// token that stands for something puts its dependencies under its name and
/// leaves every other name with what it had.
pub proof fn lemma_later_token_wins(tokens: Seq<Seq<char>>, token: Seq<char>)
    requires
        parse_token(token) is Some,
    ensures
        as_map(collect_from(tokens.push(token))) == as_map(collect_from(tokens)).insert(
            parse_token(token)->0.name,
            parse_token(token)->0.dependencies,
        ),
{
    assert(tokens.push(token).drop_last() =~= tokens);
    lemma_collected_distinct(tokens);
    lemma_upsert_as_map(collect_from(tokens), parse_token(token)->0);
}

/// Whether one of `tokens` stands for a crate named `name`.
pub open spec fn is_requested(tokens: Seq<Seq<char>>, name: Seq<char>) -> bool {
    exists|k: int|
        0 <= k < tokens.len() && parse_token(#[trigger] tokens[k]) is Some && parse_token(
            tokens[k],
        )->0.name == name
}

/// The registry holds exactly the names that the tokens ask for: a name is
/// registered if and only if one of the tokens stands for a crate of that
/// name.
pub proof fn lemma_registered_is_requested(tokens: Seq<Seq<char>>, name: Seq<char>)
    ensures
        has_name(collect_from(tokens), name) <==> is_requested(tokens, name),
    decreases tokens.len(),
{
    if tokens.len() == 0 {
    } else {
        let front = tokens.drop_last();
        let before = collect_from(front);
        let after = collect_from(tokens);
        lemma_registered_is_requested(front, name);
        if is_requested(front, name) {
            let k = choose|k: int|
                0 <= k < front.len() && parse_token(#[trigger] front[k]) is Some && parse_token(
                    front[k],
                )->0.name == name;
            assert(tokens[k] == front[k]);
        }
        if is_requested(tokens, name) {
            let k = choose|k: int|
                0 <= k < tokens.len() && parse_token(#[trigger] tokens[k]) is Some
                    && parse_token(tokens[k])->0.name == name;
            if k < front.len() {
                assert(front[k] == tokens[k]);
            }
        }
        match parse_token(tokens.last()) {
            Some(spec) => {
                let p = position_of(before, spec.name);
                lemma_position_of(before, spec.name);
                assert(tokens[tokens.len() - 1] == tokens.last());
                if has_name(before, name) {
                    let i = choose|i: int|
                        0 <= i < before.len() && #[trigger] before[i].name == name;
                    assert(after[i].name == name);
                }
                if has_name(after, name) {
                    let i = choose|i: int| 0 <= i < after.len() && #[trigger] after[i].name == name;
                    if i != p {
                        assert(before[i].name == name);
                    }
                }
                if spec.name == name {
                    assert(after[p].name == name);
                }
            },
            None => {
                assert(tokens[tokens.len() - 1] == tokens.last());
            },
        }
    }
}

/// The crate specifications to create, one per name.
#[derive(Debug)]
pub struct CrateSpecRegistry {
    entries: Vec<CrateSpec>,
}

impl View for CrateSpecRegistry {
    type V = Seq<CrateSpecModel>;

    closed spec fn view(&self) -> Seq<CrateSpecModel> {
        self.entries.deep_view()
    }
}

impl CrateSpecRegistry {
    #[verifier::type_invariant]
    spec fn names_are_distinct(&self) -> bool {
        distinct_names(self.entries.deep_view())
    }

    /// A registry without entries.
    pub fn new() -> (registry: Self)
        ensures
            registry@ == Seq::<CrateSpecModel>::empty(),
            distinct_names(registry@),
    {
        let registry = CrateSpecRegistry { entries: Vec::new() };
        assert(registry.entries.deep_view() =~= Seq::<CrateSpecModel>::empty());
        registry
    }

    /// The number of entries.
    pub fn len(&self) -> (n: usize)
        ensures
            n == self@.len(),
    {
        self.entries.len()
    }

    /// The entry at position `i`.
    pub fn entry(&self, i: usize) -> (spec: &CrateSpec)
        requires
            i < self@.len(),
        ensures
            spec@ == self@[i as int],
    {
        &self.entries[i]
    }

    /// The position of the entry named `name`, or the number of entries if
    /// there is none.
    fn position(&self, name: &String) -> (i: usize)
        ensures
            i == position_of(self@, name@),
            i <= self@.len(),
            i < self@.len() <==> has_name(self@, name@),
            i < self@.len() ==> self@[i as int].name == name@,
    {
        proof {
            use_type_invariant(self);
        }
        let mut i: usize = 0;
        while i < self.entries.len() && self.entries[i].name != *name
            invariant
                i <= self.entries.len(),
                forall|j: int| 0 <= j < i ==> self@[j].name != name@,
            decreases self.entries.len() - i,
        {
            i += 1;
        }
        proof {
            lemma_position_of_is(self@, name@, i as int);
            lemma_position_of(self@, name@);
        }
        i
    }

    /// The dependencies registered under `name`, if the name is registered.
    pub fn get(&self, name: &String) -> (found: Option<&CrateSpec>)
        ensures
            found is Some <==> has_name(self@, name@),
            found matches Some(spec) ==> spec@.name == name@ && spec@.dependencies == as_map(
                self@,
            )[name@],
    {
        let i = self.position(name);
        if i < self.entries.len() {
            assert(as_map(self@)[name@] == self@[i as int].dependencies);
            assert(self.entries[i as int]@ == self@[i as int]);
            Some(&self.entries[i])
        } else {
            None
        }
    }

    /// Registers `spec`: it takes the place of the entry with its name, or
    /// goes to the end if there is no such entry.
    pub fn insert(&mut self, spec: CrateSpec)
        ensures
            final(self)@ == upsert(old(self)@, spec@),
            distinct_names(final(self)@),
    {
        let i = self.position(&spec.name);
        proof {
            use_type_invariant(&*self);
            lemma_upsert_distinct(self@, spec@);
        }
        let ghost before = self@;
        let ghost model = spec@;
        let mut entries: Vec<CrateSpec> = Vec::new();
        assert(entries.deep_view() =~= Seq::<CrateSpecModel>::empty());
        core::mem::swap(&mut self.entries, &mut entries);
        if i < entries.len() {
            entries.set(i, spec);
            assert(entries.deep_view() =~= before.update(i as int, model));
        } else {
            entries.push(spec);
            assert(entries.deep_view() =~= before.push(model));
        }
        core::mem::swap(&mut self.entries, &mut entries);
    }

    /// The registered names, in the order of the entries. No name occurs
    /// twice.
    pub fn names(&self) -> (names: Vec<String>)
        ensures
            names.deep_view() == names_of(self@),
            names.deep_view().no_duplicates(),
    {
        proof {
            use_type_invariant(self);
        }
        let mut names: Vec<String> = Vec::new();
        let mut i: usize = 0;
        while i < self.entries.len()
            invariant
                i <= self.entries.len(),
                names.deep_view() == names_of(self@).take(i as int),
            decreases self.entries.len() - i,
        {
            let ghost before = names.deep_view();
            names.push(self.entries[i].name.clone());
            assert(names.deep_view() =~= before.push(self@[i as int].name));
            assert(names_of(self@).take(i + 1) =~= before.push(self@[i as int].name));
            i += 1;
        }
        assert(names_of(self@).take(i as int) =~= names_of(self@));
        names
    }
}

/// Reads one crate specification from `token`, which has the form
/// `name:dep1,dep2,...`. A token without a colon gives nothing.
pub fn parse_crate_spec(token: &str) -> (parsed: Option<CrateSpec>)
    ensures
        parsed is Some <==> parse_token(token@) is Some,
        parsed matches Some(spec) ==> Some(spec@) == parse_token(token@),
{
    let v = to_chars(token);
    let n = v.len();
    let i = find_char(&v, 0, n, ':');
    assert(v@.subrange(0, n as int) =~= v@);
    if i < n {
        let name = from_chars(&v, 0, i);
        let dependencies = if i + 1 == n {
            Vec::new()
        } else {
            split_range(&v, i + 1, n, ',')
        };
        assert(dependencies.deep_view() =~= dependency_list(token@.skip(i + 1)));
        Some(CrateSpec { name, dependencies })
    } else {
        None
    }
}

/// Builds the registry from the crate tokens given on the command line.
/// Tokens without a colon are passed over; of two tokens with the same name
/// the later one counts. Without any token the registry holds the default
/// crate.
pub fn collect_crates_data(crates_input: &Vec<String>) -> (registry: CrateSpecRegistry)
    ensures
        registry@ == collected(crates_input.deep_view()),
        distinct_names(registry@),
{
    let mut registry = CrateSpecRegistry::new();
    let ghost tokens = crates_input.deep_view();
    proof {
        lemma_collected_distinct(tokens);
    }
    if crates_input.len() == 0 {
        let name = "default_project".to_owned();
        let dependencies: Vec<String> = Vec::new();
        assert(name@ =~= default_name());
        assert(dependencies.deep_view() =~= Seq::<Seq<char>>::empty());
        registry.insert(CrateSpec { name, dependencies });
        assert(registry@ =~= collected(tokens));
        return registry;
    }
    let mut i: usize = 0;
    assert(tokens.take(0) =~= seq![]);
    while i < crates_input.len()
        invariant
            i <= crates_input.len(),
            tokens == crates_input.deep_view(),
            registry@ == collect_from(tokens.take(i as int)),
        decreases crates_input.len() - i,
    {
        proof {
            assert(tokens.take(i + 1).drop_last() =~= tokens.take(i as int));
            assert(tokens.take(i + 1).last() == crates_input[i as int]@);
        }
        match parse_crate_spec(crates_input[i].as_str()) {
            Some(spec) => {
                registry.insert(spec);
            },
            None => {},
        }
        i += 1;
    }
    assert(tokens.take(i as int) =~= tokens);
    registry
}

/// What the `Debug` formatting of a list of strings prints for `names`: the
/// strings between double quotes, with the characters that need it escaped,
/// separated by commas and enclosed in square brackets.
pub uninterp spec fn debug_rendering(names: Seq<Seq<char>>) -> Seq<char>;

/// What a crate announces once it has been created and registered:
/// `rendered_names` is the list of all the crates of the registry.
pub open spec fn announcement_text(crate_name: Seq<char>, rendered_names: Seq<char>) -> Seq<
    char,
> {
    "Crate '"@ + crate_name + "' is communicating with other crates: "@ + rendered_names
}

/// Calls `format!` with `{:?}` on a `Vec<String>`. The text that comes back
/// depends on the strings alone, so it is named by `debug_rendering`;
/// nothing more is claimed of it.
#[verifier::external_body]
fn render_names(names: &Vec<String>) -> (rendered: String)
    ensures
        rendered@ == debug_rendering(names.deep_view()),
{
    format!("{:?}", names)
}

/// The announcement of the crate `crate_name`, given the rendered list of
/// all crate names.
pub fn announcement(crate_name: &str, rendered_names: &str) -> (text: String)
    ensures
        text@ == announcement_text(crate_name@, rendered_names@),
{
    let mut out: Vec<char> = Vec::new();
    push_str(&mut out, "Crate '");
    push_str(&mut out, crate_name);
    push_str(&mut out, "' is communicating with other crates: ");
    push_str(&mut out, rendered_names);
    from_chars(&out, 0, out.len())
}

/// The announcement that the crate `crate_name` makes: it names every crate
/// of the registry, in the order of the entries. Every crate announces the
/// same list, since the registry is complete before the first crate is
/// created.
pub fn communicate_between_crates(registry: &CrateSpecRegistry, crate_name: &str) -> (text:
    String)
    ensures
        text@ == announcement_text(crate_name@, debug_rendering(names_of(registry@))),
{
    let names = registry.names();
    let rendered = render_names(&names);
    announcement(crate_name, rendered.as_str())
}

} // verus!
