//! The reconciliation model: per-file classification of a source/destination
//! pair, ordered per-group entry lists, and the plan aggregate with its
//! summary queries. Classification works on observed file contents handed in
//! by the caller; nothing here touches the filesystem.

use vstd::prelude::*;

use crate::ignore::{spec_included, IgnoreRules};
use crate::sort::{lemma_map_multiset, sort_by_key, sorted_by_key, SortKey};
use crate::store::{compare_bytes, contents_match};
use vstd::string::StringExecFns;

verus! {

/// The reconciliation result for one file, assigned at plan-build time.
#[derive(Clone, Copy, PartialEq, Eq, Structural, Debug)]
pub enum FileStatus {
    /// Destination exists with matching content.
    Same,
    /// Destination does not exist yet.
    Create,
    /// Destination exists with diverging content.
    Overwrite,
}

/// What the caller observed about one candidate file: whether each side
/// exists and what content could be read from it. A side that exists but
/// could not be read carries `None` and never counts as matching.
pub struct FileProbe {
    /// Path relative to the walked source root, forward-slash separated.
    pub relative_path: String,
    pub source_exists: bool,
    pub source_content: Option<Vec<u8>>,
    pub destination_exists: bool,
    pub destination_content: Option<Vec<u8>>,
}

/// Whether both sides were present and readable with matching fingerprints.
pub open spec fn probe_contents_agree(p: FileProbe) -> bool {
    &&& p.source_exists
    &&& p.destination_exists
    &&& match (p.source_content, p.destination_content) {
        (Some(a), Some(b)) => contents_match(a@, b@),
        _ => false,
    }
}

/// The classification rule: an absent destination is a `Create`, a matching
/// one a `Same`, anything else an `Overwrite`.
pub open spec fn file_status_of(p: FileProbe) -> FileStatus {
    if !p.destination_exists {
        FileStatus::Create
    } else if probe_contents_agree(p) {
        FileStatus::Same
    } else {
        FileStatus::Overwrite
    }
}

/// Classifies one observed source/destination pair.
pub fn compute_status(probe: &FileProbe) -> (r: FileStatus)
    ensures
        r == file_status_of(*probe),
{
    if !probe.destination_exists {
        return FileStatus::Create;
    }
    let agree = if probe.source_exists {
        match &probe.source_content {
            Some(a) => match &probe.destination_content {
                Some(b) => compare_bytes(a, b),
                None => false,
            },
            None => false,
        }
    } else {
        false
    };
    if agree {
        FileStatus::Same
    } else {
        FileStatus::Overwrite
    }
}

/// An absent destination is classified `Create`; a destination whose
/// observed content is byte-identical to the source is classified `Same`;
/// a present destination whose SHA-256 digest differs from the source's,
/// or whose contents could not be read, is classified `Overwrite`.
pub proof fn lemma_status_classification(p: FileProbe)
    ensures
        !p.destination_exists ==> file_status_of(p) == FileStatus::Create,
        (p.destination_exists && p.source_exists && match (p.source_content, p.destination_content) {
            (Some(a), Some(b)) => a@ == b@,
            _ => false,
        }) ==> file_status_of(p) == FileStatus::Same,
        (p.destination_exists && match (p.source_content, p.destination_content) {
            (Some(a), Some(b)) => crate::store::sha256_of(a@) != crate::store::sha256_of(b@),
            _ => true,
        }) ==> file_status_of(p) == FileStatus::Overwrite,
{
    if p.destination_exists {
        match (p.source_content, p.destination_content) {
            (Some(a), Some(b)) => {
                crate::store::lemma_fingerprints_match_iff_digests_match(a@, b@);
            },
            _ => {},
        }
    }
}

/// One classified file: its identity (the relative path), the absolute
/// paths on both sides, and its status. Immutable after creation.
#[derive(Debug)]
pub struct FileEntry {
    pub relative_path: String,
    pub source: String,
    pub destination: String,
    pub status: FileStatus,
}

/// The mathematical image of a `FileEntry`.
pub ghost struct FileEntryView {
    pub relative_path: Seq<char>,
    pub source: Seq<char>,
    pub destination: Seq<char>,
    pub status: FileStatus,
}

impl View for FileEntry {
    type V = FileEntryView;

    open spec fn view(&self) -> FileEntryView {
        FileEntryView {
            relative_path: self.relative_path@,
            source: self.source@,
            destination: self.destination@,
            status: self.status,
        }
    }
}

impl SortKey for FileEntry {
    open spec fn key(&self) -> Seq<char> {
        self.relative_path@
    }

    fn key_str(&self) -> (r: &str) {
        self.relative_path.as_str()
    }
}

impl Clone for FileEntry {
    fn clone(&self) -> (r: Self)
        ensures
            r == *self,
    {
        FileEntry {
            relative_path: self.relative_path.clone(),
            source: self.source.clone(),
            destination: self.destination.clone(),
            status: self.status,
        }
    }
}

/// How many entries carry the given status.
pub open spec fn count_with_status(entries: Seq<FileEntry>, status: FileStatus) -> int
    decreases entries.len(),
{
    if entries.len() == 0 {
        0
    } else {
        count_with_status(entries.drop_last(), status) + (if entries.last().status == status {
            1int
        } else {
            0int
        })
    }
}

pub proof fn lemma_count_bounds(entries: Seq<FileEntry>, status: FileStatus)
    ensures
        0 <= count_with_status(entries, status) <= entries.len(),
    decreases entries.len(),
{
    if entries.len() > 0 {
        lemma_count_bounds(entries.drop_last(), status);
    }
}

/// Whether some entry is not `Same`.
pub open spec fn entries_have_changes(entries: Seq<FileEntry>) -> bool {
    exists|i: int| 0 <= i < entries.len() && entries[i].status != FileStatus::Same
}

/// A named group with its ordered entry list.
#[derive(Debug)]
pub struct GroupPlan {
    pub group_name: String,
    pub entries: Vec<FileEntry>,
}

impl GroupPlan {
    /// Whether any entry of this group is not `Same`.
    pub fn has_changes(&self) -> (r: bool)
        ensures
            r == entries_have_changes(self.entries@),
    {
        let mut i: usize = 0;
        while i < self.entries.len()
            invariant
                i <= self.entries@.len(),
                forall|j: int| 0 <= j < i ==> self.entries@[j].status == FileStatus::Same,
            decreases self.entries@.len() - i,
        {
            if !(self.entries[i].status == FileStatus::Same) {
                return true;
            }
            i = i + 1;
        }
        false
    }

    /// How many entries of this group carry the given status.
    pub fn count_by_status(&self, status: FileStatus) -> (r: usize)
        ensures
            r == count_with_status(self.entries@, status),
    {
        let mut n: usize = 0;
        let mut i: usize = 0;
        proof {
            assert(self.entries@.take(0) =~= Seq::<FileEntry>::empty());
        }
        while i < self.entries.len()
            invariant
                i <= self.entries@.len(),
                n == count_with_status(self.entries@.take(i as int), status),
                n <= i,
            decreases self.entries@.len() - i,
        {
            proof {
                assert(self.entries@.take(i as int + 1).drop_last() =~= self.entries@.take(
                    i as int,
                ));
                assert(self.entries@.take(i as int + 1).last() == self.entries@[i as int]);
            }
            if self.entries[i].status == status {
                n = n + 1;
            }
            i = i + 1;
        }
        proof {
            assert(self.entries@.take(self.entries@.len() as int) =~= self.entries@);
        }
        n
    }
}

/// Whether some entry in some group is not `Same`.
pub open spec fn plan_has_changes(groups: Seq<GroupPlan>) -> bool {
    exists|i: int| 0 <= i < groups.len() && entries_have_changes(groups[i].entries@)
}

/// Whether every group has zero entries. Distinct from being change-free:
/// a plan can be non-empty yet consist entirely of `Same` entries.
pub open spec fn plan_is_empty(groups: Seq<GroupPlan>) -> bool {
    forall|i: int| 0 <= i < groups.len() ==> groups[i].entries@.len() == 0
}

/// The total count of entries with the given status across all groups.
pub open spec fn plan_count_with_status(groups: Seq<GroupPlan>, status: FileStatus) -> int
    decreases groups.len(),
{
    if groups.len() == 0 {
        0
    } else {
        plan_count_with_status(groups.drop_last(), status) + count_with_status(
            groups.last().entries@,
            status,
        )
    }
}

pub proof fn lemma_plan_count_nonneg(groups: Seq<GroupPlan>, status: FileStatus)
    ensures
        0 <= plan_count_with_status(groups, status),
    decreases groups.len(),
{
    if groups.len() > 0 {
        lemma_plan_count_nonneg(groups.drop_last(), status);
        lemma_count_bounds(groups.last().entries@, status);
    }
}

/// The ordered aggregate of all groups built for one invocation.
#[derive(Debug)]
pub struct Plan {
    pub groups: Vec<GroupPlan>,
}

impl Plan {
    pub fn new() -> (r: Plan)
        ensures
            r.groups@.len() == 0,
    {
        Plan { groups: Vec::new() }
    }

    /// Appends one group with its (already ordered) entries.
    pub fn add_group(&mut self, group_name: String, entries: Vec<FileEntry>)
        ensures
            final(self).groups@ == old(self).groups@.push((GroupPlan { group_name, entries })),
    {
        self.groups.push(GroupPlan { group_name, entries });
    }

    /// True exactly when at least one entry across all groups is not `Same`.
    pub fn has_changes(&self) -> (r: bool)
        ensures
            r == plan_has_changes(self.groups@),
    {
        let mut i: usize = 0;
        while i < self.groups.len()
            invariant
                i <= self.groups@.len(),
                forall|j: int| 0 <= j < i ==> !entries_have_changes(self.groups@[j].entries@),
            decreases self.groups@.len() - i,
        {
            if self.groups[i].has_changes() {
                return true;
            }
            i = i + 1;
        }
        false
    }

    /// True exactly when every group has zero entries.
    pub fn is_empty(&self) -> (r: bool)
        ensures
            r == plan_is_empty(self.groups@),
    {
        let mut i: usize = 0;
        while i < self.groups.len()
            invariant
                i <= self.groups@.len(),
                forall|j: int| 0 <= j < i ==> self.groups@[j].entries@.len() == 0,
            decreases self.groups@.len() - i,
        {
            if self.groups[i].entries.len() > 0 {
                return false;
            }
            i = i + 1;
        }
        true
    }

    /// The plan-wide count of entries with the given status, saturating at
    /// `usize::MAX`.
    pub fn total_count_by_status(&self, status: FileStatus) -> (r: usize)
        ensures
            r == if plan_count_with_status(self.groups@, status) > usize::MAX {
                usize::MAX as int
            } else {
                plan_count_with_status(self.groups@, status)
            },
    {
        let mut n: usize = 0;
        let mut i: usize = 0;
        proof {
            assert(self.groups@.take(0) =~= Seq::<GroupPlan>::empty());
        }
        while i < self.groups.len()
            invariant
                i <= self.groups@.len(),
                n == if plan_count_with_status(self.groups@.take(i as int), status) > usize::MAX {
                    usize::MAX as int
                } else {
                    plan_count_with_status(self.groups@.take(i as int), status)
                },
            decreases self.groups@.len() - i,
        {
            proof {
                assert(self.groups@.take(i as int + 1).drop_last() =~= self.groups@.take(i as int));
                assert(self.groups@.take(i as int + 1).last() == self.groups@[i as int]);
                lemma_plan_count_nonneg(self.groups@.take(i as int), status);
                lemma_count_bounds(self.groups@[i as int].entries@, status);
            }
            let c = self.groups[i].count_by_status(status);
            n = n.saturating_add(c);
            i = i + 1;
        }
        proof {
            assert(self.groups@.take(self.groups@.len() as int) =~= self.groups@);
        }
        n
    }
}

/// Joining a relative path onto a root, with a single `/` separator.
pub open spec fn join_spec(base: Seq<char>, rel: Seq<char>) -> Seq<char> {
    if base.len() == 0 {
        rel
    } else if base.last() == '/' {
        base + rel
    } else {
        base + seq!['/'] + rel
    }
}

/// Joins a relative path onto a root.
pub fn join_path(base: &str, rel: &str) -> (r: String)
    ensures
        r@ == join_spec(base@, rel@),
{
    let mut out = String::new();
    out.append(base);
    let n = base.unicode_len();
    if !(n == 0) && !(base.get_char(n - 1) == '/') {
        out.append("/");
        proof {
            reveal_strlit("/");
            assert(out@ =~= base@ + seq!['/']);
        }
    }
    out.append(rel);
    out
}

/// The character sequence of the per-group rule file's name.
pub open spec fn rule_file_name() -> Seq<char> {
    seq!['.', 'd', 'o', 'o', 't', 'i', 'g', 'n', 'o', 'r', 'e']
}

/// The mathematical images of a run of entries.
pub open spec fn entry_views(entries: Seq<FileEntry>) -> Seq<FileEntryView> {
    Seq::new(entries.len(), |i: int| entries[i]@)
}

/// The entries of an import build, in probe order, before sorting: for each
/// surviving probe, the source lies under the resolved target location and
/// the destination under the managed group directory.
pub open spec fn import_entry_views(
    group_dir: Seq<char>,
    resolved: Seq<char>,
    rules: Seq<(Seq<char>, bool)>,
    probes: Seq<FileProbe>,
) -> Seq<FileEntryView>
    decreases probes.len(),
{
    if probes.len() == 0 {
        Seq::empty()
    } else {
        let rest = import_entry_views(group_dir, resolved, rules, probes.drop_last());
        let p = probes.last();
        if spec_included(rules, p.relative_path@) {
            rest.push(
                FileEntryView {
                    relative_path: p.relative_path@,
                    source: join_spec(resolved, p.relative_path@),
                    destination: join_spec(group_dir, p.relative_path@),
                    status: file_status_of(p),
                },
            )
        } else {
            rest
        }
    }
}

/// The entries of an export build, in probe order, before sorting: the
/// roles of the roots are swapped, and the rule file itself is always
/// excluded, regardless of the ignore rules.
pub open spec fn export_entry_views(
    group_dir: Seq<char>,
    resolved: Seq<char>,
    rules: Seq<(Seq<char>, bool)>,
    probes: Seq<FileProbe>,
) -> Seq<FileEntryView>
    decreases probes.len(),
{
    if probes.len() == 0 {
        Seq::empty()
    } else {
        let rest = export_entry_views(group_dir, resolved, rules, probes.drop_last());
        let p = probes.last();
        if p.relative_path@ != rule_file_name() && spec_included(rules, p.relative_path@) {
            rest.push(
                FileEntryView {
                    relative_path: p.relative_path@,
                    source: join_spec(group_dir, p.relative_path@),
                    destination: join_spec(resolved, p.relative_path@),
                    status: file_status_of(p),
                },
            )
        } else {
            rest
        }
    }
}

/// The reconciliation engine: filters walked files by the ignore rules,
/// classifies each survivor, and returns the entries sorted by relative
/// path.
pub struct PlanBuilder<'a> {
    ignore_rules: &'a IgnoreRules,
}

impl<'a> PlanBuilder<'a> {
    pub closed spec fn spec_rules(&self) -> Seq<(Seq<char>, bool)> {
        self.ignore_rules@
    }

    pub fn new(ignore_rules: &'a IgnoreRules) -> (r: PlanBuilder<'a>)
        ensures
            r.spec_rules() == ignore_rules@,
    {
        PlanBuilder { ignore_rules }
    }

    /// Builds one group's import entries: sources under the resolved
    /// target location, destinations under the managed group directory.
    pub fn build_import(&self, group_dir: &str, resolved_path: &str, probes: Vec<FileProbe>) -> (r:
        Vec<FileEntry>)
        ensures
            sorted_by_key(r@),
            entry_views(r@).to_multiset() == import_entry_views(
                group_dir@,
                resolved_path@,
                self.spec_rules(),
                probes@,
            ).to_multiset(),
    {
        let mut entries: Vec<FileEntry> = Vec::new();
        let mut i: usize = 0;
        proof {
            assert(entry_views(entries@) =~= import_entry_views(
                group_dir@,
                resolved_path@,
                self.spec_rules(),
                probes@.take(0),
            ));
        }
        while i < probes.len()
            invariant
                i <= probes@.len(),
                entry_views(entries@) =~= import_entry_views(
                    group_dir@,
                    resolved_path@,
                    self.spec_rules(),
                    probes@.take(i as int),
                ),
            decreases probes@.len() - i,
        {
            let ghost before = entries@;
            proof {
                assert(probes@.take(i as int + 1).drop_last() =~= probes@.take(i as int));
                assert(probes@.take(i as int + 1).last() == probes@[i as int]);
            }
            if self.ignore_rules.is_included(probes[i].relative_path.as_str()) {
                let status = compute_status(&probes[i]);
                entries.push(
                    FileEntry {
                        relative_path: probes[i].relative_path.clone(),
                        source: join_path(resolved_path, probes[i].relative_path.as_str()),
                        destination: join_path(group_dir, probes[i].relative_path.as_str()),
                        status,
                    },
                );
                proof {
                    assert(entry_views(entries@) =~= entry_views(before).push(
                        entries@.last()@,
                    ));
                }
            }
            i = i + 1;
        }
        proof {
            assert(probes@.take(probes@.len() as int) =~= probes@);
        }
        let ghost unsorted = entries@;
        let entries = sort_by_key(entries);
        proof {
            let f = |e: FileEntry| e@;
            lemma_map_multiset(entries@, unsorted, f);
            assert(entry_views(entries@) =~= Seq::new(entries@.len(), |i: int| f(entries@[i])));
            assert(entry_views(unsorted) =~= Seq::new(unsorted.len(), |i: int| f(unsorted[i])));
        }
        entries
    }

    /// Builds one group's export entries: sources under the managed group
    /// directory, destinations under the resolved target location; the
    /// rule file itself never leaves the managed tree.
    pub fn build_export(&self, group_dir: &str, resolved_path: &str, probes: Vec<FileProbe>) -> (r:
        Vec<FileEntry>)
        ensures
            sorted_by_key(r@),
            entry_views(r@).to_multiset() == export_entry_views(
                group_dir@,
                resolved_path@,
                self.spec_rules(),
                probes@,
            ).to_multiset(),
    {
        let mut entries: Vec<FileEntry> = Vec::new();
        let mut i: usize = 0;
        proof {
            assert(entry_views(entries@) =~= export_entry_views(
                group_dir@,
                resolved_path@,
                self.spec_rules(),
                probes@.take(0),
            ));
        }
        while i < probes.len()
            invariant
                i <= probes@.len(),
                entry_views(entries@) =~= export_entry_views(
                    group_dir@,
                    resolved_path@,
                    self.spec_rules(),
                    probes@.take(i as int),
                ),
            decreases probes@.len() - i,
        {
            let ghost before = entries@;
            proof {
                assert(probes@.take(i as int + 1).drop_last() =~= probes@.take(i as int));
                assert(probes@.take(i as int + 1).last() == probes@[i as int]);
                reveal_strlit(".dootignore");
                assert(".dootignore"@ =~= rule_file_name());
            }
            let rel_is_rule_file = crate::text::str_eq(
                probes[i].relative_path.as_str(),
                ".dootignore",
            );
            if !rel_is_rule_file && self.ignore_rules.is_included(
                probes[i].relative_path.as_str(),
            ) {
                let status = compute_status(&probes[i]);
                entries.push(
                    FileEntry {
                        relative_path: probes[i].relative_path.clone(),
                        source: join_path(group_dir, probes[i].relative_path.as_str()),
                        destination: join_path(resolved_path, probes[i].relative_path.as_str()),
                        status,
                    },
                );
                proof {
                    assert(entry_views(entries@) =~= entry_views(before).push(
                        entries@.last()@,
                    ));
                }
            }
            i = i + 1;
        }
        proof {
            assert(probes@.take(probes@.len() as int) =~= probes@);
        }
        let ghost unsorted = entries@;
        let entries = sort_by_key(entries);
        proof {
            let f = |e: FileEntry| e@;
            lemma_map_multiset(entries@, unsorted, f);
            assert(entry_views(entries@) =~= Seq::new(entries@.len(), |i: int| f(entries@[i])));
            assert(entry_views(unsorted) =~= Seq::new(unsorted.len(), |i: int| f(unsorted[i])));
        }
        entries
    }
}

} // verus!
