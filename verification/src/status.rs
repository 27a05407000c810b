//! Read-only divergence reporting. Per group, each managed file that
//! survives the ignore rules is classified against the resolved target
//! tree; the per-file classifications roll up to a group status, and the
//! group statuses of a configured plan's members roll up to a plan status.
//! No direction is resolved and nothing is written.

use vstd::prelude::*;

use crate::config::{resolver_known, Config};
use crate::error::Error;
use crate::ignore::{spec_included, IgnoreRules};
use crate::plan::{probe_contents_agree, FileProbe};
use crate::sort::{lemma_map_multiset, sort_by_key, sorted_by_key, SortKey};
use crate::text::str_eq;
use vstd::string::StringExecFns;

verus! {

/// The status of one group, and the rolled-up status of a plan.
#[derive(Clone, Copy, PartialEq, Eq, Structural, Debug)]
pub enum GroupStatus {
    InSync,
    OutOfSync,
    New,
    Skipped,
}

/// The classification of one managed file against the target tree.
#[derive(Clone, Copy, PartialEq, Eq, Structural, Debug)]
pub enum FileState {
    InSync,
    Modified,
    New,
}

/// One classified file in a group's status report.
#[derive(Debug)]
pub struct FileStatusEntry {
    pub relative_path: String,
    pub state: FileState,
}

impl SortKey for FileStatusEntry {
    open spec fn key(&self) -> Seq<char> {
        self.relative_path@
    }

    fn key_str(&self) -> (r: &str) {
        self.relative_path.as_str()
    }
}

/// A group's report: its status and the classified files behind it.
#[derive(Debug)]
pub struct GroupStatusResult {
    pub name: String,
    pub status: GroupStatus,
    pub files: Vec<FileStatusEntry>,
}

/// A plan's rolled-up report.
#[derive(Debug)]
pub struct PlanStatusResult {
    pub name: String,
    pub status: GroupStatus,
}

/// The classification rule for one file: an absent destination is `New`,
/// matching content is `InSync`, anything else is `Modified`.
pub open spec fn file_state_of(p: FileProbe) -> FileState {
    if !p.destination_exists {
        FileState::New
    } else if probe_contents_agree(p) {
        FileState::InSync
    } else {
        FileState::Modified
    }
}

/// Classifies one observed source/destination pair.
pub fn compute_file_state(probe: &FileProbe) -> (r: FileState)
    ensures
        r == file_state_of(*probe),
{
    if !probe.destination_exists {
        return FileState::New;
    }
    let agree = if probe.source_exists {
        match &probe.source_content {
            Some(a) => match &probe.destination_content {
                Some(b) => crate::store::compare_bytes(a, b),
                None => false,
            },
            None => false,
        }
    } else {
        false
    };
    if agree {
        FileState::InSync
    } else {
        FileState::Modified
    }
}

/// The states of a report's files, in report order.
pub open spec fn states_of(files: Seq<FileStatusEntry>) -> Seq<FileState> {
    Seq::new(files.len(), |i: int| files[i].state)
}

/// The mathematical image of a report entry.
pub open spec fn status_entry_views(files: Seq<FileStatusEntry>) -> Seq<(Seq<char>, FileState)> {
    Seq::new(files.len(), |i: int| (files[i].relative_path@, files[i].state))
}

/// The classification of the probes that survive the ignore rules, in
/// probe order.
pub open spec fn classified(rules: Seq<(Seq<char>, bool)>, probes: Seq<FileProbe>) -> Seq<
    (Seq<char>, FileState),
>
    decreases probes.len(),
{
    if probes.len() == 0 {
        Seq::empty()
    } else {
        let rest = classified(rules, probes.drop_last());
        let p = probes.last();
        if spec_included(rules, p.relative_path@) {
            rest.push((p.relative_path@, file_state_of(p)))
        } else {
            rest
        }
    }
}

/// Group-level aggregation: no files means `New`; all files `InSync` means
/// `InSync`; no `Modified` file means `New`; a `Modified` file, whatever
/// it is mixed with, means `OutOfSync`.
pub open spec fn group_status_of(states: Seq<FileState>) -> GroupStatus {
    if states.len() == 0 {
        GroupStatus::New
    } else if (forall|i: int| 0 <= i < states.len() ==> states[i] == FileState::InSync) {
        GroupStatus::InSync
    } else if (forall|i: int| 0 <= i < states.len() ==> states[i] != FileState::Modified) {
        GroupStatus::New
    } else {
        GroupStatus::OutOfSync
    }
}

/// `Modified` is sticky: its presence forces `OutOfSync`, regardless of
/// co-occurring `New` or `InSync` files.
pub proof fn lemma_modified_forces_out_of_sync(states: Seq<FileState>)
    requires
        exists|i: int| 0 <= i < states.len() && states[i] == FileState::Modified,
    ensures
        group_status_of(states) == GroupStatus::OutOfSync,
{
}

/// Rolls the group states of a group's files into the group's status.
fn aggregate_group_status(files: &Vec<FileStatusEntry>) -> (r: GroupStatus)
    ensures
        r == group_status_of(states_of(files@)),
{
    let mut all_in_sync = true;
    let mut any_modified = false;
    let mut i: usize = 0;
    while i < files.len()
        invariant
            i <= files@.len(),
            all_in_sync == (forall|j: int| 0 <= j < i ==> files@[j].state == FileState::InSync),
            any_modified == (exists|j: int|
                0 <= j < i && files@[j].state == FileState::Modified),
        decreases files@.len() - i,
    {
        if !(files[i].state == FileState::InSync) {
            all_in_sync = false;
        }
        if files[i].state == FileState::Modified {
            any_modified = true;
        }
        i = i + 1;
    }
    let ghost states = states_of(files@);
    proof {
        assert forall|j: int| 0 <= j < files@.len() implies states[j] == files@[j].state by {}
    }
    if files.len() == 0 {
        GroupStatus::New
    } else if all_in_sync {
        proof {
            assert forall|j: int| 0 <= j < states.len() implies states[j] == FileState::InSync by {
                assert(files@[j].state == FileState::InSync);
            }
        }
        GroupStatus::InSync
    } else if !any_modified {
        proof {
            let w = choose|j: int| 0 <= j < files@.len() && !(files@[j].state == FileState::InSync);
            assert(states[w] != FileState::InSync);
            assert forall|j: int| 0 <= j < states.len() implies states[j] != FileState::Modified by {
                assert(files@[j].state != FileState::Modified);
            }
        }
        GroupStatus::New
    } else {
        proof {
            let w = choose|j: int| 0 <= j < files@.len() && files@[j].state == FileState::Modified;
            assert(states[w] == FileState::Modified);
            assert(states[w] != FileState::InSync);
        }
        GroupStatus::OutOfSync
    }
}

/// What the caller observed about one group before classification.
pub enum GroupProbe {
    /// Resolving the target path or reading the rule file failed.
    Failed(Error),
    /// The managed group directory does not exist locally.
    NoDirectory,
    /// The managed directory's rule set and the walked files, each with the
    /// content observed on both sides.
    Present(IgnoreRules, Vec<FileProbe>),
}

/// What `check_group` promises of a successful report.
pub open spec fn group_report_ok(
    config: Config,
    resolver: Seq<char>,
    name: Seq<char>,
    probe: GroupProbe,
    res: GroupStatusResult,
) -> bool {
    &&& res.name@ == name
    &&& if !resolver_known(config, name, resolver) {
        res.status == GroupStatus::Skipped && res.files@.len() == 0
    } else {
        match probe {
            GroupProbe::Failed(_) => false,
            GroupProbe::NoDirectory => res.status == GroupStatus::New && res.files@.len() == 0,
            GroupProbe::Present(rules, probes) => {
                &&& status_entry_views(res.files@).to_multiset() == classified(
                    rules@,
                    probes@,
                ).to_multiset()
                &&& sorted_by_key(res.files@)
                &&& res.status == group_status_of(states_of(res.files@))
            },
        }
    }
}

/// Whether classifying this (name, observation) pair must surface an
/// error: its resolver is known (so the group is not skipped) and the
/// observation itself failed.
pub open spec fn probe_fails(config: Config, resolver: Seq<char>, pair: (String, GroupProbe)) -> bool {
    resolver_known(config, pair.0@, resolver) && pair.1 is Failed
}

/// The position of the first pair whose classification must surface an
/// error, or the input's length when none must.
pub open spec fn first_failing_probe(
    config: Config,
    resolver: Seq<char>,
    probes: Seq<(String, GroupProbe)>,
) -> int
    decreases probes.len(),
{
    if probes.len() == 0 {
        0
    } else if probe_fails(config, resolver, probes.first()) {
        0
    } else {
        1 + first_failing_probe(config, resolver, probes.drop_first())
    }
}

proof fn lemma_first_failing_probe(
    config: Config,
    resolver: Seq<char>,
    probes: Seq<(String, GroupProbe)>,
    k: int,
)
    requires
        0 <= k <= probes.len(),
        forall|j: int| 0 <= j < k ==> !probe_fails(config, resolver, #[trigger] probes[j]),
        k < probes.len() ==> probe_fails(config, resolver, probes[k]),
    ensures
        first_failing_probe(config, resolver, probes) == k,
    decreases k,
{
    if k == 0 {
        if probes.len() > 0 && !probe_fails(config, resolver, probes.first()) {
            assert(false);
        }
    } else {
        assert(!probe_fails(config, resolver, probes[0]));
        assert forall|j: int| 0 <= j < k - 1 implies !probe_fails(
            config,
            resolver,
            #[trigger] probes.drop_first()[j],
        ) by {
            assert(probes.drop_first()[j] == probes[j + 1]);
        }
        if k - 1 < probes.len() - 1 {
            assert(probes.drop_first()[k - 1] == probes[k]);
        }
        lemma_first_failing_probe(config, resolver, probes.drop_first(), k - 1);
    }
}

/// The read-only checker: a configuration and the resolver dimension to
/// report against.
pub struct StatusChecker<'a> {
    config: &'a Config,
    resolver: String,
}

impl<'a> StatusChecker<'a> {
    pub closed spec fn spec_config(&self) -> Config {
        *self.config
    }

    pub closed spec fn spec_resolver(&self) -> Seq<char> {
        self.resolver@
    }

    pub fn new(config: &'a Config, resolver: String) -> (r: StatusChecker<'a>)
        ensures
            r.spec_config() == *config,
            r.spec_resolver() == resolver@,
    {
        StatusChecker { config, resolver }
    }

    /// Classifies one group. A group whose resolver lookup fails is
    /// `Skipped` with no files; an absent managed directory is `New` with
    /// no files; otherwise the surviving files are classified, sorted and
    /// aggregated. A failed observation surfaces its error.
    pub fn check_group(&self, group_name: &str, probe: GroupProbe) -> (r: Result<
        GroupStatusResult,
        Error,
    >)
        ensures
            (match r {
                Ok(res) => group_report_ok(
                    self.spec_config(),
                    self.spec_resolver(),
                    group_name@,
                    probe,
                    res,
                ),
                Err(e) => resolver_known(self.spec_config(), group_name@, self.spec_resolver())
                    && (probe matches GroupProbe::Failed(e0) && e == e0),
            }),
    {
        match self.config.get_resolver(group_name, self.resolver.as_str()) {
            Ok(_) => {},
            Err(_) => {
                return Ok(
                    GroupStatusResult {
                        name: group_name.to_owned(),
                        status: GroupStatus::Skipped,
                        files: Vec::new(),
                    },
                );
            },
        }
        match probe {
            GroupProbe::Failed(e) => Err(e),
            GroupProbe::NoDirectory => Ok(
                GroupStatusResult {
                    name: group_name.to_owned(),
                    status: GroupStatus::New,
                    files: Vec::new(),
                },
            ),
            GroupProbe::Present(rules, probes) => {
                let mut files: Vec<FileStatusEntry> = Vec::new();
                let mut i: usize = 0;
                proof {
                    assert(status_entry_views(files@) =~= classified(rules@, probes@.take(0)));
                }
                while i < probes.len()
                    invariant
                        i <= probes@.len(),
                        status_entry_views(files@) =~= classified(rules@, probes@.take(i as int)),
                    decreases probes@.len() - i,
                {
                    let ghost before = files@;
                    proof {
                        assert(probes@.take(i as int + 1).drop_last() =~= probes@.take(i as int));
                        assert(probes@.take(i as int + 1).last() == probes@[i as int]);
                    }
                    if rules.is_included(probes[i].relative_path.as_str()) {
                        let state = compute_file_state(&probes[i]);
                        files.push(
                            FileStatusEntry {
                                relative_path: probes[i].relative_path.clone(),
                                state,
                            },
                        );
                        proof {
                            assert(status_entry_views(files@) =~= status_entry_views(before).push(
                                (files@.last().relative_path@, files@.last().state),
                            ));
                        }
                    }
                    i = i + 1;
                }
                proof {
                    assert(probes@.take(probes@.len() as int) =~= probes@);
                }
                let ghost unsorted = files@;
                let files = sort_by_key(files);
                proof {
                    let f = |e: FileStatusEntry| (e.relative_path@, e.state);
                    lemma_map_multiset(files@, unsorted, f);
                    assert(status_entry_views(files@) =~= Seq::new(
                        files@.len(),
                        |i: int| f(files@[i]),
                    )) by {
                        assert forall|i: int| 0 <= i < files@.len() implies f(files@[i]) == (
                            files@[i].relative_path@,
                            files@[i].state,
                        ) by {}
                    }
                    assert(status_entry_views(unsorted) =~= Seq::new(
                        unsorted.len(),
                        |i: int| f(unsorted[i]),
                    )) by {
                        assert forall|i: int| 0 <= i < unsorted.len() implies f(unsorted[i]) == (
                            unsorted[i].relative_path@,
                            unsorted[i].state,
                        ) by {}
                    }
                    assert(status_entry_views(files@).to_multiset() == classified(
                        rules@,
                        probes@,
                    ).to_multiset());
                }
                let status = aggregate_group_status(&files);
                Ok(GroupStatusResult { name: group_name.to_owned(), status, files })
            },
        }
    }

    /// The configured group names in sorted order, the order reports are
    /// produced in.
    pub fn sorted_group_names(&self) -> (r: Vec<String>)
        ensures
            sorted_by_key(r@),
            r@.to_multiset() == Seq::new(
                self.spec_config().groups@.len(),
                |i: int| self.spec_config().groups@[i].name,
            ).to_multiset(),
    {
        let mut names: Vec<String> = Vec::new();
        let mut i: usize = 0;
        while i < self.config.groups.len()
            invariant
                i <= self.config.groups@.len(),
                names@ =~= Seq::new(i as nat, |k: int| self.config.groups@[k].name),
            decreases self.config.groups@.len() - i,
        {
            names.push(self.config.groups[i].name.clone());
            i = i + 1;
        }
        sort_by_key(names)
    }

    /// Classifies the given (name, observation) pairs in order: one report
    /// per pair, under the pair's name, and an error exactly when some
    /// non-skipped pair carries a failed observation — the first such pair's
    /// error, with everything before it classified (fail-fast). A caller
    /// that probes the names of `sorted_group_names` in their order gets
    /// one report per configured group, in ascending name order.
    pub fn check_all_groups(&self, probes: Vec<(String, GroupProbe)>) -> (r: Result<
        Vec<GroupStatusResult>,
        Error,
    >)
        ensures
            (r is Err) == (first_failing_probe(self.spec_config(), self.spec_resolver(), probes@)
                < probes@.len()),
            (match r {
                Ok(results) => results@.len() == probes@.len() && (forall|k: int|
                    0 <= k < results@.len() ==> group_report_ok(
                        self.spec_config(),
                        self.spec_resolver(),
                        probes@[k].0@,
                        probes@[k].1,
                        #[trigger] results@[k],
                    )) && (forall|k: int|
                    0 <= k < results@.len() ==> (#[trigger] results@[k]).name@ == probes@[k].0@),
                Err(e) => probes@[first_failing_probe(
                    self.spec_config(),
                    self.spec_resolver(),
                    probes@,
                )].1 matches GroupProbe::Failed(e0) && e == e0,
            }),
    {
        let ghost orig = probes@;
        proof {
            assert(orig == probes@);
        }
        let mut rest = probes;
        let mut results: Vec<GroupStatusResult> = Vec::new();
        proof {
            assert(orig.skip(0) =~= orig);
        }
        #[verifier::loop_isolation(false)]
        while rest.len() > 0
            invariant
                results@.len() + rest@.len() == orig.len(),
                rest@ =~= orig.skip(results@.len() as int),
                forall|k: int|
                    0 <= k < results@.len() ==> group_report_ok(
                        self.spec_config(),
                        self.spec_resolver(),
                        orig[k].0@,
                        orig[k].1,
                        #[trigger] results@[k],
                    ),
            decreases rest@.len(),
        {
            let ghost k = results@.len() as int;
            let pair = rest.remove(0);
            proof {
                assert(pair == orig[k]);
                assert(rest@ =~= orig.skip(k + 1));
            }
            let name = pair.0;
            let probe = pair.1;
            match self.check_group(name.as_str(), probe) {
                Ok(res) => {
                    results.push(res);
                },
                Err(e) => {
                    proof {
                        assert(probe_fails(self.spec_config(), self.spec_resolver(), orig[k]));
                        assert forall|j: int| 0 <= j < k implies !probe_fails(
                            self.spec_config(),
                            self.spec_resolver(),
                            #[trigger] orig[j],
                        ) by {
                            if probe_fails(self.spec_config(), self.spec_resolver(), orig[j]) {
                                assert(!group_report_ok(
                                    self.spec_config(),
                                    self.spec_resolver(),
                                    orig[j].0@,
                                    orig[j].1,
                                    results@[j],
                                ));
                            }
                        }
                        lemma_first_failing_probe(
                            self.spec_config(),
                            self.spec_resolver(),
                            orig,
                            k,
                        );
                    }
                    return Err(e);
                },
            }
        }
        proof {
            assert(results@.len() == orig.len());
            assert forall|k: int| 0 <= k < orig.len() implies !probe_fails(
                self.spec_config(),
                self.spec_resolver(),
                #[trigger] orig[k],
            ) by {
                if probe_fails(self.spec_config(), self.spec_resolver(), orig[k]) {
                    assert(!group_report_ok(
                        self.spec_config(),
                        self.spec_resolver(),
                        orig[k].0@,
                        orig[k].1,
                        results@[k],
                    ));
                }
            }
            lemma_first_failing_probe(
                self.spec_config(),
                self.spec_resolver(),
                orig,
                orig.len() as int,
            );
        }
        Ok(results)
    }
}

/// The first report with the given group name, if any.
pub open spec fn find_result(results: Seq<GroupStatusResult>, name: Seq<char>) -> Option<
    GroupStatusResult,
>
    decreases results.len(),
{
    if results.len() == 0 {
        None
    } else if results.first().name@ == name {
        Some(results.first())
    } else {
        find_result(results.drop_first(), name)
    }
}

/// One step of the plan roll-up: `Skipped` does not participate,
/// `OutOfSync` is sticky, `New` upgrades anything but `OutOfSync`, and
/// `InSync` only marks participation.
pub open spec fn roll_step(acc: (GroupStatus, bool), st: GroupStatus) -> (GroupStatus, bool) {
    match st {
        GroupStatus::Skipped => acc,
        GroupStatus::OutOfSync => (GroupStatus::OutOfSync, true),
        GroupStatus::New => (
            if acc.0 == GroupStatus::OutOfSync {
                GroupStatus::OutOfSync
            } else {
                GroupStatus::New
            },
            true,
        ),
        GroupStatus::InSync => (acc.0, true),
    }
}

/// The roll-up over the named member groups, in member order: the running
/// status and whether any member participated.
pub open spec fn roll(results: Seq<GroupStatusResult>, names: Seq<Seq<char>>) -> (
    GroupStatus,
    bool,
)
    decreases names.len(),
{
    if names.len() == 0 {
        (GroupStatus::InSync, false)
    } else {
        let prev = roll(results, names.drop_last());
        match find_result(results, names.last()) {
            Some(g) => roll_step(prev, g.status),
            None => prev,
        }
    }
}

/// A plan's status: the roll-up of its members, or `Skipped` when no
/// member participated.
pub open spec fn plan_status_of(results: Seq<GroupStatusResult>, names: Seq<Seq<char>>)
    -> GroupStatus {
    let (st, any) = roll(results, names);
    if any {
        st
    } else {
        GroupStatus::Skipped
    }
}

/// The member group names the configuration gives a plan: its explicit
/// list, all configured groups when the list is absent, and no members at
/// all for an unknown plan name.
pub open spec fn plan_member_names(config: Config, plan: Seq<char>) -> Seq<Seq<char>> {
    match crate::config::find_plan(config.plans@, plan) {
        None => Seq::empty(),
        Some(p) => match p.members {
            Some(ms) => ms.deep_view(),
            None => crate::config::group_names(config.groups@),
        },
    }
}

/// `OutOfSync` is sticky across the roll-up: one `OutOfSync` member group
/// forces the plan to `OutOfSync`, whatever the other members report.
pub proof fn lemma_out_of_sync_wins(results: Seq<GroupStatusResult>, names: Seq<Seq<char>>)
    requires
        exists|i: int|
            0 <= i < names.len() && (find_result(results, #[trigger] names[i]) matches Some(g)
                && g.status == GroupStatus::OutOfSync),
    ensures
        plan_status_of(results, names) == GroupStatus::OutOfSync,
    decreases names.len(),
{
    let i = choose|i: int|
        0 <= i < names.len() && (find_result(results, #[trigger] names[i]) matches Some(g)
            && g.status == GroupStatus::OutOfSync);
    if i < names.len() - 1 {
        assert(names.drop_last()[i] == names[i]);
        lemma_out_of_sync_wins(results, names.drop_last());
        assert(roll(results, names.drop_last()).0 == GroupStatus::OutOfSync);
        assert(roll(results, names.drop_last()).1);
    }
}

/// A plan none of whose members participates (each one `Skipped` or not
/// reported), or with no members at all, reports `Skipped`.
pub proof fn lemma_all_skipped(results: Seq<GroupStatusResult>, names: Seq<Seq<char>>)
    requires
        forall|i: int|
            0 <= i < names.len() ==> (match find_result(results, #[trigger] names[i]) {
                Some(g) => g.status == GroupStatus::Skipped,
                None => true,
            }),
    ensures
        roll(results, names) == (GroupStatus::InSync, false),
        plan_status_of(results, names) == GroupStatus::Skipped,
    decreases names.len(),
{
    if names.len() > 0 {
        assert forall|i: int|
            0 <= i < names.drop_last().len() implies (match find_result(
            results,
            #[trigger] names.drop_last()[i],
        ) {
            Some(g) => g.status == GroupStatus::Skipped,
            None => true,
        }) by {
            assert(names.drop_last()[i] == names[i]);
        }
        lemma_all_skipped(results, names.drop_last());
    }
}

/// The first report carrying the given group name, searched in order.
fn find_result_ref<'b>(results: &'b Vec<GroupStatusResult>, name: &str) -> (r: Option<
    &'b GroupStatusResult,
>)
    ensures
        (match r {
            Some(g) => find_result(results@, name@) == Some(*g),
            None => find_result(results@, name@) is None,
        }),
{
    proof {
        assert(results@.skip(0) =~= results@);
    }
    let mut i: usize = 0;
    while i < results.len()
        invariant
            i <= results@.len(),
            find_result(results@, name@) == find_result(results@.skip(i as int), name@),
        decreases results@.len() - i,
    {
        proof {
            assert(results@.skip(i as int).first() == results@[i as int]);
            assert(results@.skip(i as int).drop_first() =~= results@.skip(i as int + 1));
        }
        if str_eq(results[i].name.as_str(), name) {
            return Some(&results[i]);
        }
        i = i + 1;
    }
    None
}

impl<'a> StatusChecker<'a> {
    /// The member group names of a plan, as `plan_member_names` gives them.
    fn members_of_plan(&self, plan: &str) -> (r: Vec<String>)
        ensures
            r.deep_view() == plan_member_names(self.spec_config(), plan@),
    {
        proof {
            assert(self.config.plans@.skip(0) =~= self.config.plans@);
        }
        let mut i: usize = 0;
        while i < self.config.plans.len()
            invariant
                i <= self.config.plans@.len(),
                crate::config::find_plan(self.config.plans@, plan@) == crate::config::find_plan(
                    self.config.plans@.skip(i as int),
                    plan@,
                ),
            decreases self.config.plans@.len() - i,
        {
            proof {
                assert(self.config.plans@.skip(i as int).first() == self.config.plans@[i as int]);
                assert(self.config.plans@.skip(i as int).drop_first() =~= self.config.plans@.skip(
                    i as int + 1,
                ));
            }
            if str_eq(self.config.plans[i].name.as_str(), plan) {
                match &self.config.plans[i].members {
                    Some(ms) => {
                        let mut names: Vec<String> = Vec::new();
                        let mut j: usize = 0;
                        while j < ms.len()
                            invariant
                                j <= ms@.len(),
                                names.deep_view() =~= ms.deep_view().take(j as int),
                            decreases ms@.len() - j,
                        {
                            let ghost before = names.deep_view();
                            names.push(ms[j].clone());
                            proof {
                                assert(names.deep_view() =~= before.push(names@.last()@));
                                assert(names.deep_view() =~= ms.deep_view().take(j as int + 1));
                            }
                            j = j + 1;
                        }
                        proof {
                            assert(ms.deep_view().take(ms@.len() as int) =~= ms.deep_view());
                        }
                        return names;
                    },
                    None => {
                        let mut names: Vec<String> = Vec::new();
                        let mut j: usize = 0;
                        while j < self.config.groups.len()
                            invariant
                                j <= self.config.groups@.len(),
                                names.deep_view() =~= crate::config::group_names(
                                    self.config.groups@,
                                ).take(j as int),
                            decreases self.config.groups@.len() - j,
                        {
                            let ghost before = names.deep_view();
                            names.push(self.config.groups[j].name.clone());
                            proof {
                                assert(names.deep_view() =~= before.push(names@.last()@));
                                assert(names.deep_view() =~= crate::config::group_names(
                                    self.config.groups@,
                                ).take(j as int + 1));
                            }
                            j = j + 1;
                        }
                        proof {
                            assert(crate::config::group_names(self.config.groups@).take(
                                self.config.groups@.len() as int,
                            ) =~= crate::config::group_names(self.config.groups@));
                        }
                        return names;
                    },
                }
            }
            i = i + 1;
        }
        let names: Vec<String> = Vec::new();
        proof {
            assert(names.deep_view() =~= Seq::<Seq<char>>::empty());
        }
        names
    }

    /// Rolls its member groups' reports into one plan status.
    pub fn check_plan(&self, plan_name: &str, group_results: &Vec<GroupStatusResult>) -> (r:
        PlanStatusResult)
        ensures
            r.name@ == plan_name@,
            r.status == plan_status_of(
                group_results@,
                plan_member_names(self.spec_config(), plan_name@),
            ),
    {
        let members = self.members_of_plan(plan_name);
        let ghost names = members.deep_view();
        let mut status = GroupStatus::InSync;
        let mut has_any = false;
        let mut i: usize = 0;
        proof {
            assert(names.take(0) =~= Seq::<Seq<char>>::empty());
        }
        while i < members.len()
            invariant
                i <= members@.len(),
                names == members.deep_view(),
                names.len() == members@.len(),
                (status, has_any) == roll(group_results@, names.take(i as int)),
            decreases members@.len() - i,
        {
            proof {
                assert(names.take(i as int + 1).drop_last() =~= names.take(i as int));
                assert(names.take(i as int + 1).last() == names[i as int]);
                assert(members@[i as int]@ == names[i as int]);
            }
            match find_result_ref(group_results, members[i].as_str()) {
                Some(g) => {
                    match g.status {
                        GroupStatus::Skipped => {},
                        GroupStatus::OutOfSync => {
                            status = GroupStatus::OutOfSync;
                            has_any = true;
                        },
                        GroupStatus::New => {
                            if !(status == GroupStatus::OutOfSync) {
                                status = GroupStatus::New;
                            }
                            has_any = true;
                        },
                        GroupStatus::InSync => {
                            has_any = true;
                        },
                    }
                },
                None => {},
            }
            i = i + 1;
        }
        proof {
            assert(names.take(members@.len() as int) =~= names);
        }
        let final_status = if has_any {
            status
        } else {
            GroupStatus::Skipped
        };
        PlanStatusResult { name: plan_name.to_owned(), status: final_status }
    }

    /// The configured plan names in sorted order.
    pub fn sorted_plan_names(&self) -> (r: Vec<String>)
        ensures
            sorted_by_key(r@),
            r@.to_multiset() == Seq::new(
                self.spec_config().plans@.len(),
                |i: int| self.spec_config().plans@[i].name,
            ).to_multiset(),
    {
        let mut names: Vec<String> = Vec::new();
        let mut i: usize = 0;
        while i < self.config.plans.len()
            invariant
                i <= self.config.plans@.len(),
                names@ =~= Seq::new(i as nat, |k: int| self.config.plans@[k].name),
            decreases self.config.plans@.len() - i,
        {
            names.push(self.config.plans[i].name.clone());
            i = i + 1;
        }
        sort_by_key(names)
    }

    /// Rolls every configured plan, in sorted name order: one result per
    /// configured plan name, ascending.
    pub fn check_all_plans(&self, group_results: &Vec<GroupStatusResult>) -> (r: Vec<
        PlanStatusResult,
    >)
        ensures
            r@.len() == self.spec_config().plans@.len(),
            Seq::new(r@.len(), |i: int| r@[i].name@).to_multiset() == Seq::new(
                self.spec_config().plans@.len(),
                |i: int| self.spec_config().plans@[i].name@,
            ).to_multiset(),
            forall|i: int, j: int|
                0 <= i < j < r@.len() ==> crate::text::lex_le(r@[i].name@, r@[j].name@),
            forall|i: int|
                0 <= i < r@.len() ==> (#[trigger] r@[i]).status == plan_status_of(
                    group_results@,
                    plan_member_names(self.spec_config(), r@[i].name@),
                ),
    {
        let names = self.sorted_plan_names();
        proof {
            broadcast use vstd::seq_lib::group_to_multiset_ensures;

            assert(names@.len() == names@.to_multiset().len());
            assert(Seq::new(
                self.spec_config().plans@.len(),
                |i: int| self.spec_config().plans@[i].name,
            ).len() == self.spec_config().plans@.len());
        }
        let mut results: Vec<PlanStatusResult> = Vec::new();
        let mut i: usize = 0;
        while i < names.len()
            invariant
                i <= names@.len(),
                results@.len() == i,
                forall|k: int|
                    0 <= k < i ==> (#[trigger] results@[k]).name@ == names@[k]@,
                forall|k: int|
                    0 <= k < i ==> (#[trigger] results@[k]).status == plan_status_of(
                        group_results@,
                        plan_member_names(self.spec_config(), names@[k]@),
                    ),
                sorted_by_key(names@),
            decreases names@.len() - i,
        {
            let res = self.check_plan(names[i].as_str(), group_results);
            results.push(res);
            i = i + 1;
        }
        proof {
            assert forall|i: int, j: int| 0 <= i < j < results@.len() implies crate::text::lex_le(
                results@[i].name@,
                results@[j].name@,
            ) by {
                assert(results@[i].name@ == names@[i]@);
                assert(results@[j].name@ == names@[j]@);
                assert(crate::text::lex_le(names@[i].key(), names@[j].key()));
            }
            let f = |s: String| s@;
            let configured = Seq::new(
                self.spec_config().plans@.len(),
                |i: int| self.spec_config().plans@[i].name,
            );
            lemma_map_multiset(names@, configured, f);
            assert(Seq::new(names@.len(), |i: int| f(names@[i])) =~= Seq::new(
                results@.len(),
                |i: int| results@[i].name@,
            )) by {
                assert forall|i: int| 0 <= i < names@.len() implies f(names@[i])
                    == results@[i].name@ by {
                    assert(results@[i].name@ == names@[i]@);
                }
            }
            assert(Seq::new(configured.len(), |i: int| f(configured[i])) =~= Seq::new(
                self.spec_config().plans@.len(),
                |i: int| self.spec_config().plans@[i].name@,
            )) by {
                assert forall|i: int| 0 <= i < configured.len() implies f(configured[i])
                    == self.spec_config().plans@[i].name@ by {}
            }
        }
        results
    }
}

} // verus!
