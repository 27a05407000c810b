//! The configuration consumed by the library: a version marker that must
//! equal the single supported value, the materialization mode, a group
//! table mapping group name to resolver name to target-location string, and
//! a plan table mapping plan name to an optional member-group list (an
//! absent list means "all configured groups"). Loading the document from
//! disk is the caller's job; lookups and validation live here. Lookups are
//! first-match: a duplicated name resolves to its first occurrence.

use vstd::prelude::*;

use crate::error::{Error, ErrorKind};
use crate::text::str_eq;
use vstd::string::StringExecFns;

verus! {

/// The materialization strategy for managed copies.
#[derive(Clone, Copy, PartialEq, Eq, Structural, Debug)]
pub enum Mode {
    /// Full content duplicates.
    File,
    /// Symlinks into the managed tree.
    Link,
}

impl Default for Mode {
    /// The mode used when the configuration names none.
    fn default() -> (r: Mode)
        ensures
            r == Mode::File,
    {
        Mode::File
    }
}

/// One resolver of a group: a name and the target-location string it maps
/// to (before shell-style expansion).
#[derive(Debug)]
pub struct ResolverEntry {
    pub name: String,
    pub path: String,
}

/// One configured group with its resolver table.
#[derive(Debug)]
pub struct GroupEntry {
    pub name: String,
    pub resolvers: Vec<ResolverEntry>,
}

/// One configured plan: `None` members means "all configured groups".
#[derive(Debug)]
pub struct PlanEntry {
    pub name: String,
    pub members: Option<Vec<String>>,
}

/// The validated configuration.
#[derive(Debug)]
pub struct Config {
    pub version: String,
    pub mode: Mode,
    pub plans: Vec<PlanEntry>,
    pub groups: Vec<GroupEntry>,
}

/// The first group with the given name, if any.
pub open spec fn find_group(groups: Seq<GroupEntry>, name: Seq<char>) -> Option<GroupEntry>
    decreases groups.len(),
{
    if groups.len() == 0 {
        None
    } else if groups.first().name@ == name {
        Some(groups.first())
    } else {
        find_group(groups.drop_first(), name)
    }
}

/// The first resolver with the given name, if any.
pub open spec fn find_resolver(resolvers: Seq<ResolverEntry>, name: Seq<char>) -> Option<
    ResolverEntry,
>
    decreases resolvers.len(),
{
    if resolvers.len() == 0 {
        None
    } else if resolvers.first().name@ == name {
        Some(resolvers.first())
    } else {
        find_resolver(resolvers.drop_first(), name)
    }
}

/// The first plan with the given name, if any.
pub open spec fn find_plan(plans: Seq<PlanEntry>, name: Seq<char>) -> Option<PlanEntry>
    decreases plans.len(),
{
    if plans.len() == 0 {
        None
    } else if plans.first().name@ == name {
        Some(plans.first())
    } else {
        find_plan(plans.drop_first(), name)
    }
}

/// The configured group names, in configuration order.
pub open spec fn group_names(groups: Seq<GroupEntry>) -> Seq<Seq<char>> {
    Seq::new(groups.len(), |i: int| groups[i].name@)
}

/// Whether the group exists and carries the named resolver.
pub open spec fn resolver_known(config: Config, group: Seq<char>, resolver: Seq<char>) -> bool {
    match find_group(config.groups@, group) {
        Some(g) => find_resolver(g.resolvers@, resolver) is Some,
        None => false,
    }
}

impl Config {
    /// Validates the version marker and assembles the configuration;
    /// exactly the version `v1` is supported.
    pub fn new(version: String, mode: Mode, plans: Vec<PlanEntry>, groups: Vec<GroupEntry>) -> (r:
        Result<Config, Error>)
        ensures
            (r is Ok) == (version@ == "v1"@),
            (match r {
                Ok(c) => c.version == version && c.mode == mode && c.plans == plans && c.groups
                    == groups,
                Err(e) => e.spec_kind() == ErrorKind::Configuration && e.spec_chain() == seq![
                    ("Unsupported config version: "@ + version@),
                ],
            }),
    {
        if str_eq(version.as_str(), "v1") {
            Ok(Config { version, mode, plans, groups })
        } else {
            let mut message = String::new();
            message.append("Unsupported config version: ");
            message.append(version.as_str());
            proof {
                assert(message@ =~= "Unsupported config version: "@ + version@);
            }
            Err(Error::new(ErrorKind::Configuration, message))
        }
    }

    /// The resolver table of the named group, or a `Configuration` error
    /// when the group does not exist.
    pub fn get_group(&self, name: &str) -> (r: Result<&Vec<ResolverEntry>, Error>)
        ensures
            (match r {
                Ok(resolvers) => find_group(self.groups@, name@) matches Some(g) && *resolvers
                    == g.resolvers,
                Err(e) => find_group(self.groups@, name@) is None && e.spec_kind()
                    == ErrorKind::Configuration && e.spec_chain() == seq![
                    ("Group '"@ + name@ + "' not found"@),
                ],
            }),
    {
        proof {
            assert(self.groups@.skip(0) =~= self.groups@);
        }
        let mut i: usize = 0;
        while i < self.groups.len()
            invariant
                i <= self.groups@.len(),
                find_group(self.groups@, name@) == find_group(
                    self.groups@.skip(i as int),
                    name@,
                ),
            decreases self.groups@.len() - i,
        {
            proof {
                assert(self.groups@.skip(i as int).first() == self.groups@[i as int]);
                assert(self.groups@.skip(i as int).drop_first() =~= self.groups@.skip(
                    i as int + 1,
                ));
            }
            if str_eq(self.groups[i].name.as_str(), name) {
                return Ok(&self.groups[i].resolvers);
            }
            i = i + 1;
        }
        let mut message = String::new();
        message.append("Group '");
        message.append(name);
        message.append("' not found");
        proof {
            assert(message@ =~= "Group '"@ + name@ + "' not found"@);
        }
        Err(Error::new(ErrorKind::Configuration, message))
    }

    /// The target-location string of the named resolver in the named group,
    /// or a `Configuration` error naming whichever lookup failed.
    pub fn get_resolver(&self, group: &str, resolver: &str) -> (r: Result<&str, Error>)
        ensures
            (r is Ok) == resolver_known(*self, group@, resolver@),
            (match r {
                Ok(path) => find_group(self.groups@, group@) matches Some(g) && find_resolver(
                    g.resolvers@,
                    resolver@,
                ) matches Some(re) && path@ == re.path@,
                Err(e) => e.spec_kind() == ErrorKind::Configuration && (match find_group(
                    self.groups@,
                    group@,
                ) {
                    None => e.spec_chain() == seq![("Group '"@ + group@ + "' not found"@)],
                    Some(g) => find_resolver(g.resolvers@, resolver@) is None && e.spec_chain()
                        == seq![
                        ("Resolver '"@ + resolver@ + "' not found in group '"@ + group@ + "'"@),
                    ],
                }),
            }),
    {
        let resolvers = match self.get_group(group) {
            Ok(resolvers) => resolvers,
            Err(e) => {
                return Err(e);
            },
        };
        proof {
            assert(resolvers@.skip(0) =~= resolvers@);
        }
        let mut i: usize = 0;
        while i < resolvers.len()
            invariant
                i <= resolvers@.len(),
                find_group(self.groups@, group@) matches Some(g) && *resolvers == g.resolvers,
                find_resolver(resolvers@, resolver@) == find_resolver(
                    resolvers@.skip(i as int),
                    resolver@,
                ),
            decreases resolvers@.len() - i,
        {
            proof {
                assert(resolvers@.skip(i as int).first() == resolvers@[i as int]);
                assert(resolvers@.skip(i as int).drop_first() =~= resolvers@.skip(i as int + 1));
            }
            if str_eq(resolvers[i].name.as_str(), resolver) {
                return Ok(resolvers[i].path.as_str());
            }
            i = i + 1;
        }
        let mut message = String::new();
        message.append("Resolver '");
        message.append(resolver);
        message.append("' not found in group '");
        message.append(group);
        message.append("'");
        proof {
            assert(message@ =~= "Resolver '"@ + resolver@ + "' not found in group '"@ + group@
                + "'"@);
        }
        Err(Error::new(ErrorKind::Configuration, message))
    }

    /// The member group names of the named plan: its explicit list, or all
    /// configured group names when the list is absent; a `Configuration`
    /// error when the plan does not exist.
    pub fn get_plan_groups(&self, plan: &str) -> (r: Result<Vec<String>, Error>)
        ensures
            (match r {
                Ok(names) => find_plan(self.plans@, plan@) matches Some(p) && (match p.members {
                    Some(ms) => names.deep_view() == ms.deep_view(),
                    None => names.deep_view() == group_names(self.groups@),
                }),
                Err(e) => find_plan(self.plans@, plan@) is None && e.spec_kind()
                    == ErrorKind::Configuration && e.spec_chain() == seq![
                    ("Plan '"@ + plan@ + "' not found"@),
                ],
            }),
    {
        proof {
            assert(self.plans@.skip(0) =~= self.plans@);
        }
        let mut i: usize = 0;
        while i < self.plans.len()
            invariant
                i <= self.plans@.len(),
                find_plan(self.plans@, plan@) == find_plan(self.plans@.skip(i as int), plan@),
            decreases self.plans@.len() - i,
        {
            proof {
                assert(self.plans@.skip(i as int).first() == self.plans@[i as int]);
                assert(self.plans@.skip(i as int).drop_first() =~= self.plans@.skip(i as int + 1));
            }
            if str_eq(self.plans[i].name.as_str(), plan) {
                match &self.plans[i].members {
                    Some(ms) => {
                        let mut names: Vec<String> = Vec::new();
                        let mut j: usize = 0;
                        while j < ms.len()
                            invariant
                                j <= ms@.len(),
                                names.deep_view() =~= ms.deep_view().take(j as int),
                            decreases ms@.len() - j,
                        {
                            let ghost before = names.deep_view();
                            names.push(ms[j].clone());
                            proof {
                                assert(names.deep_view() =~= before.push(names@.last()@));
                                assert(names.deep_view() =~= ms.deep_view().take(j as int + 1));
                            }
                            j = j + 1;
                        }
                        proof {
                            assert(ms.deep_view().take(ms@.len() as int) =~= ms.deep_view());
                        }
                        return Ok(names);
                    },
                    None => {
                        let mut names: Vec<String> = Vec::new();
                        let mut j: usize = 0;
                        while j < self.groups.len()
                            invariant
                                j <= self.groups@.len(),
                                names.deep_view() =~= group_names(self.groups@).take(j as int),
                            decreases self.groups@.len() - j,
                        {
                            let ghost before = names.deep_view();
                            names.push(self.groups[j].name.clone());
                            proof {
                                assert(names.deep_view() =~= before.push(names@.last()@));
                                assert(names.deep_view() =~= group_names(self.groups@).take(
                                    j as int + 1,
                                ));
                            }
                            j = j + 1;
                        }
                        proof {
                            assert(group_names(self.groups@).take(self.groups@.len() as int)
                                =~= group_names(self.groups@));
                        }
                        return Ok(names);
                    },
                }
            }
            i = i + 1;
        }
        let mut message = String::new();
        message.append("Plan '");
        message.append(plan);
        message.append("' not found");
        proof {
            assert(message@ =~= "Plan '"@ + plan@ + "' not found"@);
        }
        Err(Error::new(ErrorKind::Configuration, message))
    }
}

} // verus!
