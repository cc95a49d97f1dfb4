//! The command line: `<project> <crate-spec>...`, where each crate
//! specification has the form `name:dep1,dep2,...`.
use crate::text::framed;
use crate::toolchain::exit_failure;
use vstd::prelude::*;

verus! {

/// What the command line asks for.
#[derive(Debug, PartialEq, Eq)]
pub struct Invocation {
    /// The workspace to create.
    pub project_name: String,
    /// The crate specifications, as they were given.
    pub crate_args: Vec<String>,
}

/// The command line names no workspace or no crate.
#[derive(Debug, PartialEq, Eq)]
pub struct UsageError {}

/// The usage line.
pub open spec fn usage_text() -> Seq<char> {
    "Usage: crust-trust <project> <crates:dependencies>"@
}

/// What is reported when the workspace `project` has been built and every
/// toolchain step has passed.
pub open spec fn completion_text(project: Seq<char>) -> Seq<char> {
    "Workspace '"@ + project + "' created successfully!"@
}

/// What is reported when a root manifest has been written at `path`.
pub open spec fn workspace_created_text(path: Seq<char>) -> Seq<char> {
    "Created new workspace at '"@ + path + "'."@
}

/// What is reported when the files of the crate `name` could not be
/// written.
pub open spec fn crate_failure_text(name: Seq<char>) -> Seq<char> {
    "Error creating crate '"@ + name + "'"@
}

impl UsageError {
    /// The message that goes to standard error.
    pub fn message(&self) -> (text: String)
        ensures
            text@ == usage_text(),
    {
        "Usage: crust-trust <project> <crates:dependencies>".to_owned()
    }

    /// The status with which the program ends.
    pub fn exit_code(&self) -> (code: i32)
        ensures
            code == exit_failure(),
    {
        1
    }
}

/// Reads the arguments that follow the program's name. The first names the
/// workspace and the others are crate specifications; at least one of each
/// is needed.
pub fn parse_arguments(args: &Vec<String>) -> (parsed: Result<Invocation, UsageError>)
    ensures
        parsed is Err <==> args.len() < 2,
        parsed matches Ok(invocation) ==> invocation.project_name@ == args[0]@
            && invocation.crate_args.deep_view() == args.deep_view().skip(1),
{
    if args.len() < 2 {
        return Err(UsageError {  });
    }
    let mut crate_args: Vec<String> = Vec::new();
    let mut i: usize = 1;
    assert(crate_args.deep_view() =~= args.deep_view().subrange(1, 1));
    while i < args.len()
        invariant
            1 <= i <= args.len(),
            crate_args.deep_view() == args.deep_view().subrange(1, i as int),
        decreases args.len() - i,
    {
        let ghost before = crate_args.deep_view();
        crate_args.push(args[i].clone());
        assert(crate_args.deep_view() =~= before.push(args[i as int]@));
        assert(before.push(args[i as int]@) =~= args.deep_view().subrange(1, i + 1));
        i += 1;
    }
    Ok(Invocation { project_name: args[0].clone(), crate_args })
}

/// The report of a run that built the workspace `project` and passed every
/// toolchain step.
pub fn completion_message(project: &str) -> (text: String)
    ensures
        text@ == completion_text(project@),
{
    framed("Workspace '", project, "' created successfully!")
}

/// The report of a root manifest written at `path`.
pub fn workspace_created_message(path: &str) -> (text: String)
    ensures
        text@ == workspace_created_text(path@),
{
    framed("Created new workspace at '", path, "'.")
}

/// The report of a crate whose files could not be written. Such a failure
/// concerns that crate alone: the other crates are still created and the
/// toolchain steps still run.
pub fn crate_failure_message(name: &str) -> (text: String)
    ensures
        text@ == crate_failure_text(name@),
{
    framed("Error creating crate '", name, "'")
}

} // verus!
