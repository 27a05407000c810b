//! The command model: what an invocation asks for, and the configuration
//! lookups that turn a target into the groups to process. Argument parsing
//! itself happens outside the library; these types carry its result.

use vstd::prelude::*;

use crate::config::{find_group, find_plan, group_names, Config};
use crate::error::{Error, ErrorKind};
use vstd::string::StringExecFns;

verus! {

/// What one invocation operates on: a single group, or a named plan.
#[derive(Debug)]
pub enum Target {
    Group { name: String, resolver: String },
    Plan { name: String, resolver: String },
}

/// The requested operation.
#[derive(Debug)]
pub enum Command {
    /// Copy files from the resolved target location into managed storage.
    Import { target: Target },
    /// Materialize managed files at the resolved target location.
    Export { target: Target },
    /// List the configured plans, groups and resolvers.
    List,
}

/// A parsed invocation.
#[derive(Debug)]
pub struct Args {
    /// Skip the confirmation prompt.
    pub yes: bool,
    /// The configuration file path.
    pub config: String,
    pub command: Command,
}

/// The groups an invocation processes: the single named group (which must
/// exist), or the member groups of the named plan.
pub fn resolve_groups(config: &Config, target: &Target) -> (r: Result<Vec<String>, Error>)
    ensures
        (match target {
            Target::Group { name, .. } => (match r {
                Ok(gs) => find_group(config.groups@, name@) is Some && gs.deep_view() =~= seq![
                    name@,
                ],
                Err(e) => find_group(config.groups@, name@) is None && e.spec_kind()
                    == ErrorKind::Configuration,
            }),
            Target::Plan { name, .. } => (match r {
                Ok(gs) => find_plan(config.plans@, name@) matches Some(p) && (match p.members {
                    Some(ms) => gs.deep_view() == ms.deep_view(),
                    None => gs.deep_view() == group_names(config.groups@),
                }),
                Err(e) => find_plan(config.plans@, name@) is None && e.spec_kind()
                    == ErrorKind::Configuration,
            }),
        }),
{
    match target {
        Target::Group { name, .. } => {
            match config.get_group(name.as_str()) {
                Ok(_) => {
                    let mut gs: Vec<String> = Vec::new();
                    gs.push(name.clone());
                    proof {
                        assert(gs.deep_view() =~= seq![name@]);
                    }
                    Ok(gs)
                },
                Err(e) => Err(e),
            }
        },
        Target::Plan { name, .. } => config.get_plan_groups(name.as_str()),
    }
}

/// The resolver dimension an invocation names.
pub fn get_resolver_name(target: &Target) -> (r: String)
    ensures
        (match target {
            Target::Group { resolver, .. } => r@ == resolver@,
            Target::Plan { resolver, .. } => r@ == resolver@,
        }),
{
    match target {
        Target::Group { resolver, .. } => resolver.clone(),
        Target::Plan { resolver, .. } => resolver.clone(),
    }
}

/// The human-readable name of the operation, for display.
pub fn get_operation_name(action: &str, target: &Target) -> (r: String)
    ensures
        (match target {
            Target::Group { name, .. } => r@ == action@ + " group '"@ + name@ + "'"@,
            Target::Plan { name, .. } => r@ == action@ + " plan '"@ + name@ + "'"@,
        }),
{
    let mut out = String::new();
    out.append(action);
    match target {
        Target::Group { name, .. } => {
            out.append(" group '");
            out.append(name.as_str());
        },
        Target::Plan { name, .. } => {
            out.append(" plan '");
            out.append(name.as_str());
        },
    }
    out.append("'");
    out
}

} // verus!
