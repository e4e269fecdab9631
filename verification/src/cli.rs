//! The command line: which action the arguments ask for, and the decisions
//! taken while importing assets.
use vstd::prelude::*;
use crate::text::{has_prefix, views, joined, join, str_eq, strip_prefix, starts_with, owned};

verus! {

broadcast use vstd::string::group_string_axioms;

pub const INIT: &'static str = "init";
pub const HELP: &'static str = "help";
pub const ASSETS: &'static str = "assets";
pub const EVENTS: &'static str = "events";
pub const RESOURCES: &'static str = "resources";
pub const SERVICES: &'static str = "services";
pub const TENANTS: &'static str = "tenants";
pub const LIST: &'static str = "list";
pub const IMPORT: &'static str = "import";

/// Why a command cannot be carried out.
#[derive(Debug)]
pub enum CliError {
    /// No tenant has the name given; it is kept here.
    TenantNotFound(String),
    /// Arguments that an import from the input does not use, joined by spaces.
    UselessArguments(String),
    /// `help` was asked about something that is not a command.
    UnknownSubcommand(String),
}

/// What a command works on, once the client is set up.
#[derive(Debug, Clone, Copy, PartialEq, Eq, Structural)]
pub enum Task {
    AssetsList,
    AssetsImport,
    ServicesList,
    TenantsList,
    /// The command and subcommand name nothing that can be done.
    Nothing,
}

/// What the command line asks for.
#[derive(Debug)]
pub enum Action {
    /// Print the usage and exit with failure.
    Usage,
    /// Set up the configuration interactively.
    Init,
    /// Print the help of a command.
    Help(String),
    /// Set up the client from the configuration, then carry out the task
    /// (`Task::Nothing`: print the usage and exit with failure).
    Run(Task),
}

/// The task of a command and its subcommand.
pub open spec fn task_of(command: Seq<char>, subcommand: Seq<char>) -> Task {
    if command == ASSETS@ {
        if subcommand == LIST@ {
            Task::AssetsList
        } else if subcommand == IMPORT@ {
            Task::AssetsImport
        } else {
            Task::Nothing
        }
    } else if command == SERVICES@ && subcommand == LIST@ {
        Task::ServicesList
    } else if command == TENANTS@ && subcommand == LIST@ {
        Task::TenantsList
    } else {
        Task::Nothing
    }
}

/// The task of a command and its subcommand.
pub fn task(command: &str, subcommand: &str) -> (r: Task)
    ensures
        r == task_of(command@, subcommand@),
{
    if str_eq(command, ASSETS) {
        if str_eq(subcommand, LIST) {
            Task::AssetsList
        } else if str_eq(subcommand, IMPORT) {
            Task::AssetsImport
        } else {
            Task::Nothing
        }
    } else if str_eq(command, SERVICES) && str_eq(subcommand, LIST) {
        Task::ServicesList
    } else if str_eq(command, TENANTS) && str_eq(subcommand, LIST) {
        Task::TenantsList
    } else {
        Task::Nothing
    }
}

/// The action that the arguments `args` ask for; `args[0]` is the program,
/// `args[1]` the command and `args[2]` its subcommand. `init` alone sets up
/// the configuration; a command without a subcommand gets the usage;
/// `help` gets the help of its subcommand.
pub fn dispatch(args: &Vec<String>) -> (r: Action)
    ensures
        args@.len() < 2 ==> r is Usage,
        args@.len() == 2 ==> if args@[1]@ == INIT@ {
            r is Init
        } else {
            r is Usage
        },
        args@.len() > 2 && args@[1]@ == HELP@ ==> (r matches Action::Help(s) && s@ == args@[2]@),
        args@.len() > 2 && args@[1]@ != HELP@ ==> r == Action::Run(
            task_of(args@[1]@, args@[2]@),
        ),
{
    if args.len() < 2 {
        return Action::Usage;
    }
    let command = args[1].as_str();
    if args.len() == 2 {
        if str_eq(command, INIT) {
            return Action::Init;
        }
        return Action::Usage;
    }
    let subcommand = args[2].as_str();
    if str_eq(command, HELP) {
        return Action::Help(owned(subcommand));
    }
    Action::Run(task(command, subcommand))
}

/// The commands whose help can be printed.
#[derive(Debug, Clone, Copy, PartialEq, Eq, Structural)]
pub enum HelpTopic {
    Init,
    Assets,
    Services,
    Tenants,
}

/// The help asked for by `help {subcommand}`: a topic to print, none for the
/// commands without help (`events`, `resources`), or an error for anything
/// that is not a command.
pub fn help(subcommand: &str) -> (r: Result<Option<HelpTopic>, CliError>)
    ensures
        subcommand@ == INIT@ ==> r matches Ok(Some(HelpTopic::Init)),
        subcommand@ != INIT@ && subcommand@ == ASSETS@ ==> r matches Ok(Some(HelpTopic::Assets)),
        subcommand@ != INIT@ && subcommand@ != ASSETS@ && (subcommand@ == EVENTS@ || subcommand@
            == RESOURCES@) ==> r matches Ok(None),
        subcommand@ != INIT@ && subcommand@ != ASSETS@ && subcommand@ != EVENTS@ && subcommand@
            != RESOURCES@ && subcommand@ == SERVICES@ ==> r matches Ok(Some(HelpTopic::Services)),
        subcommand@ != INIT@ && subcommand@ != ASSETS@ && subcommand@ != EVENTS@ && subcommand@
            != RESOURCES@ && subcommand@ != SERVICES@ && subcommand@ == TENANTS@ ==> r matches Ok(
            Some(HelpTopic::Tenants),
        ),
        subcommand@ != INIT@ && subcommand@ != ASSETS@ && subcommand@ != EVENTS@ && subcommand@
            != RESOURCES@ && subcommand@ != SERVICES@ && subcommand@ != TENANTS@ ==> (r matches Err(
            CliError::UnknownSubcommand(s),
        ) && s@ == subcommand@),
{
    if str_eq(subcommand, INIT) {
        Ok(Some(HelpTopic::Init))
    } else if str_eq(subcommand, ASSETS) {
        Ok(Some(HelpTopic::Assets))
    } else if str_eq(subcommand, EVENTS) || str_eq(subcommand, RESOURCES) {
        Ok(None)
    } else if str_eq(subcommand, SERVICES) {
        Ok(Some(HelpTopic::Services))
    } else if str_eq(subcommand, TENANTS) {
        Ok(Some(HelpTopic::Tenants))
    } else {
        Err(CliError::UnknownSubcommand(owned(subcommand)))
    }
}

/// The tenant named by the first argument after `import`, `param`: the name
/// after `tenant=`, or none where `param` does not start with `tenant=` (it
/// is then the first field of the assets, or the input holds them).
pub fn extract_tenant_name(param: &str) -> (r: Option<String>)
    ensures
        has_prefix(param@, "tenant="@) ==> (r matches Some(name) && name@ == param@.skip(
            "tenant="@.len() as int,
        )),
        !has_prefix(param@, "tenant="@) ==> r is None,
{
    strip_prefix(param, "tenant=")
}

/// The tenant id for the tenant `name`, given what the search by that name
/// found.
pub fn resolve_tenant(name: String, found: Option<String>) -> (r: Result<String, CliError>)
    ensures
        found matches Some(id) ==> r == Ok::<String, CliError>(id),
        found is None ==> (r matches Err(CliError::TenantNotFound(n)) && n == name),
{
    match found {
        Some(id) => Ok(id),
        None => Err(CliError::TenantNotFound(name)),
    }
}

/// Where the assets of an import come from.
#[derive(Debug)]
pub enum ImportPlan {
    /// From the command-line fields, for the tenant if one is given.
    FromFields { tenant_id: Option<String>, fields: Vec<String> },
    /// From a JSON document read from the input, for the tenant if one is given.
    FromInput { tenant_id: Option<String> },
}

/// The arguments from `args[start]` on.
pub open spec fn args_from(args: Seq<Seq<char>>, start: int) -> Seq<Seq<char>> {
    if args.len() > start {
        args.skip(start)
    } else {
        Seq::empty()
    }
}

/// The fields of an import from the command line: the arguments after
/// `import` (`args[3..]`), leaving out a first one that names the tenant.
pub open spec fn field_args(args: Seq<Seq<char>>) -> Seq<Seq<char>> {
    if args.len() > 3 && has_prefix(args[3], "tenant="@) {
        args_from(args, 4)
    } else {
        args_from(args, 3)
    }
}

/// The arguments `args[start..]`.
fn args_after(args: &Vec<String>, start: usize) -> (r: Vec<String>)
    ensures
        views(r@) == args_from(views(args@), start as int),
{
    let mut r: Vec<String> = Vec::new();
    let n = args.len();
    if n <= start {
        assert(views(r@) =~= args_from(views(args@), start as int));
        return r;
    }
    let mut i: usize = start;
    while i < n
        invariant
            start <= i <= n,
            n == args@.len(),
            r@.len() == i - start,
            views(r@) == views(args@).subrange(start as int, i as int),
        decreases n - i,
    {
        r.push(args[i].clone());
        assert(views(r@) =~= views(args@).subrange(start as int, i + 1));
        i += 1;
    }
    assert(views(args@).subrange(start as int, n as int) =~= args_from(
        views(args@),
        start as int,
    ));
    r
}

/// Where the assets of `import` come from. From the fields on the command
/// line when the input is a terminal, for the tenant if one is given (as in
/// `kc assets import name=example-name fqdn=example.com`); else from the
/// input, which allows at most one argument after `import`'s first one.
pub fn plan_import(stdin_is_terminal: bool, tenant_id: Option<String>, args: &Vec<String>) -> (r:
    Result<ImportPlan, CliError>)
    ensures
        stdin_is_terminal ==> (r matches Ok(ImportPlan::FromFields { tenant_id: t, fields }) && t
            == tenant_id && views(fields@) == field_args(views(args@))),
        !stdin_is_terminal && args@.len() > 5 ==> (r matches Err(CliError::UselessArguments(s))
            && s@ == joined(args_from(views(args@), 4), " "@)),
        !stdin_is_terminal && args@.len() <= 5 ==> (r matches Ok(
            ImportPlan::FromInput { tenant_id: t },
        ) && t == tenant_id),
{
    if stdin_is_terminal {
        let names_tenant = args.len() > 3 && starts_with(args[3].as_str(), "tenant=");
        let fields = if names_tenant {
            args_after(args, 4)
        } else {
            args_after(args, 3)
        };
        proof {
            if args@.len() > 3 {
                assert(views(args@)[3] == args@[3]@);
            }
        }
        Ok(ImportPlan::FromFields { tenant_id, fields })
    } else if args.len() > 5 {
        let rest = args_after(args, 4);
        Err(CliError::UselessArguments(join(&rest, " ")))
    } else {
        Ok(ImportPlan::FromInput { tenant_id })
    }
}

} // verus!
