//! The Markdown report of an analysis.

use vstd::prelude::*;

use crate::analyzer::ApiAnalysisResult;
use crate::findings::{EndpointRef, Finding, PackageVersionRef, PrDelta, Topology};
use crate::sorting::{Keyed, SortKey};
use crate::{mount_graph, sorting, text, tier};

verus! {

// ---------------------------------------------------------------------------
// Text in Markdown
// ---------------------------------------------------------------------------

/// A text with every line break as one blank.
pub open spec fn one_line(s: Seq<char>) -> Seq<char> {
    let a = text::replace_text_from(s, "\r\n"@, " "@, 0);
    text::replace_char_spec(text::replace_char_spec(a, '\r', " "@), '\n', " "@)
}

fn to_one_line(s: &str) -> (r: String)
    ensures
        r@ == one_line(s@),
{
    proof {
        reveal_strlit("\r\n");
    }
    let a = text::replace_text(s, "\r\n", " ");
    let b = text::replace_char(&a, '\r', " ");
    text::replace_char(&b, '\n', " ")
}

/// A value as a table cell: pipes escaped, on one line, without white space
/// round it.
pub open spec fn cell_spec(value: Seq<char>) -> Seq<char> {
    text::trim_spec(one_line(text::replace_char_spec(value, '|', "\\|"@)))
}

/// A value as a table cell in inline code: as a cell, without backticks.
pub open spec fn code_cell_spec(value: Seq<char>) -> Seq<char> {
    text::replace_char_spec(cell_spec(value), '`', ""@)
}

/// A value as inline code in prose: on one line, without backticks and without
/// white space round it.
pub open spec fn code_span_spec(value: Seq<char>) -> Seq<char> {
    text::trim_spec(text::replace_char_spec(one_line(value), '`', ""@))
}

/// Escapes a value for a table cell.
pub fn cell(value: &str) -> (r: String)
    ensures
        r@ == cell_spec(value@),
{
    let a = text::replace_char(value, '|', "\\|");
    let b = to_one_line(&a);
    text::trim(&b)
}

/// Escapes a value for inline code in a table cell.
pub fn code_cell(value: &str) -> (r: String)
    ensures
        r@ == code_cell_spec(value@),
{
    let a = cell(value);
    text::replace_char(&a, '`', "")
}

/// Escapes a value for inline code in prose.
pub fn code_span(value: &str) -> (r: String)
    ensures
        r@ == code_span_spec(value@),
{
    let a = to_one_line(value);
    let b = text::replace_char(&a, '`', "");
    text::trim(&b)
}

fn number(n: usize) -> (r: String)
    ensures
        r@ == text::decimal(n as nat),
{
    text::decimal_text(n as u64)
}

/// The plural ending for a count.
pub open spec fn plural_spec(n: nat) -> Seq<char> {
    if n == 1 {
        ""@
    } else {
        "s"@
    }
}

fn plural(n: usize) -> (r: &'static str)
    ensures
        r@ == plural_spec(n as nat),
{
    if n == 1 {
        ""
    } else {
        "s"
    }
}

/// The phrases in one: the last one joined with `and`, the others with commas.
pub open spec fn join_human_spec(parts: Seq<Seq<char>>) -> Seq<char> {
    if parts.len() < 2 {
        text::join_spec(parts, ", "@)
    } else {
        text::join_spec(parts.drop_last(), ", "@) + " and "@ + parts.last()
    }
}

/// Joins phrases as "a", "a and b", or "a, b and c".
pub fn join_human(parts: &Vec<String>) -> (r: String)
    ensures
        r@ == join_human_spec(parts.deep_view()),
{
    if parts.len() < 2 {
        return text::join(parts, ", ");
    }
    let mut head: Vec<String> = Vec::new();
    let ghost p = parts.deep_view();
    let mut i: usize = 0;
    while i < parts.len() - 1
        invariant
            parts@.len() >= 2,
            i <= parts@.len() - 1,
            p == parts.deep_view(),
            head.deep_view() == p.take(i as int),
        decreases parts@.len() - i,
    {
        text::push_deep(&mut head, parts[i].clone());
        i += 1;
        assert(head.deep_view() =~= p.take(i as int));
    }
    assert(p.take(i as int) =~= p.drop_last());
    let joined = text::join(&head, ", ");
    text::cat3(&joined, " and ", &parts[parts.len() - 1])
}

// ---------------------------------------------------------------------------
// Topology
// ---------------------------------------------------------------------------

/// Whether the repository holds more than one service.
pub open spec fn monorepo(t: Topology) -> bool {
    t.local_service_count > 1
}

/// Whether other repositories are indexed.
pub open spec fn with_peers(t: Topology) -> bool {
    t.peer_repo_count > 0
}

/// Whether there is more than one service to match across.
pub open spec fn baseline(t: Topology) -> bool {
    with_peers(t) || monorepo(t)
}

/// What the header says of the topology.
pub open spec fn header_suffix_spec(t: Topology) -> Seq<char> {
    if monorepo(t) {
        " · monorepo ("@ + text::decimal(t.local_service_count as nat) + " services)"@
    } else if !with_peers(t) {
        " · "@ + t.repo_name@
    } else {
        ""@
    }
}

/// What the verdict ranges over.
pub open spec fn scope_spec(t: Topology) -> Seq<char> {
    if with_peers(t) {
        text::decimal((t.peer_repo_count + 1) as nat) + " repos"@
    } else if monorepo(t) {
        text::decimal(t.local_service_count as nat) + " services"@
    } else {
        t.repo_name@
    }
}

impl Topology {
    fn is_monorepo(&self) -> (r: bool)
        ensures
            r == monorepo(*self),
    {
        self.local_service_count > 1
    }

    fn has_peers(&self) -> (r: bool)
        ensures
            r == with_peers(*self),
    {
        self.peer_repo_count > 0
    }

    /// Whether there is more than one service to match across. Without that an
    /// endpoint looks orphaned only because nothing else is indexed.
    pub fn has_baseline(&self) -> (r: bool)
        ensures
            r == baseline(*self),
    {
        self.has_peers() || self.is_monorepo()
    }

    /// What the header says of the topology.
    pub fn header_suffix(&self) -> (r: String)
        ensures
            r@ == header_suffix_spec(*self),
    {
        if self.is_monorepo() {
            text::cat3(" · monorepo (", &number(self.local_service_count), " services)")
        } else if !self.has_peers() {
            text::cat2(" · ", &self.repo_name)
        } else {
            text::owned("")
        }
    }

    /// What the verdict ranges over.
    pub fn scope_phrase(&self) -> (r: String)
        requires
            self.peer_repo_count < usize::MAX,
        ensures
            r@ == scope_spec(*self),
    {
        if self.has_peers() {
            text::cat2(&number(self.peer_repo_count + 1), " repos")
        } else if self.is_monorepo() {
            text::cat2(&number(self.local_service_count), " services")
        } else {
            self.repo_name.clone()
        }
    }
}

// ---------------------------------------------------------------------------
// Categories
// ---------------------------------------------------------------------------

/// A contract risk: a type or a method that does not fit.
pub open spec fn is_risk(f: Finding) -> bool {
    f is TypeMismatch || f is MethodMismatch
}

/// A conflict between major versions.
pub open spec fn is_major(f: Finding) -> bool {
    match f {
        Finding::DependencyConflict { tier, .. } => tier@ == tier::MAJOR@,
        _ => false,
    }
}

/// A conflict that is only advice.
pub open spec fn is_advisory(f: Finding) -> bool {
    f is DependencyConflict && !is_major(f)
}

/// The findings by category. Each finding is in one of them.
pub struct CategorizedFindings<'a> {
    pub risks: Vec<&'a Finding>,
    pub missing: Vec<&'a Finding>,
    pub orphaned: Vec<&'a Finding>,
    pub env_var_calls: Vec<&'a Finding>,
    pub major_dependencies: Vec<&'a Finding>,
    pub unparseable_dependencies: Vec<&'a Finding>,
}

/// The findings of one kind, in their order.
pub open spec fn of_kind(findings: Seq<Finding>, kind: spec_fn(Finding) -> bool) -> Seq<Finding>
    decreases findings.len(),
{
    if findings.len() == 0 {
        Seq::empty()
    } else {
        let before = of_kind(findings.drop_last(), kind);
        if kind(findings.last()) {
            before.push(findings.last())
        } else {
            before
        }
    }
}

/// The contract risks.
pub open spec fn risks_of(findings: Seq<Finding>) -> Seq<Finding> {
    of_kind(findings, |f: Finding| is_risk(f))
}

/// The calls without a producer.
pub open spec fn missing_of(findings: Seq<Finding>) -> Seq<Finding> {
    of_kind(findings, |f: Finding| f is MissingEndpoint)
}

/// The producers without a consumer.
pub open spec fn orphaned_of(findings: Seq<Finding>) -> Seq<Finding> {
    of_kind(findings, |f: Finding| f is OrphanedEndpoint)
}

/// The calls by environment variable.
pub open spec fn env_calls_of(findings: Seq<Finding>) -> Seq<Finding> {
    of_kind(findings, |f: Finding| f is EnvVarCall)
}

/// The conflicts between major versions.
pub open spec fn major_of(findings: Seq<Finding>) -> Seq<Finding> {
    of_kind(findings, |f: Finding| is_major(f))
}

/// The conflicts that are only advice.
pub open spec fn advisory_of(findings: Seq<Finding>) -> Seq<Finding> {
    of_kind(findings, |f: Finding| is_advisory(f))
}

/// Whether the categories are those of the findings.
pub open spec fn categorizes(c: CategorizedFindings, findings: Seq<Finding>) -> bool {
    &&& c.risks@.unref() == risks_of(findings)
    &&& c.missing@.unref() == missing_of(findings)
    &&& c.orphaned@.unref() == orphaned_of(findings)
    &&& c.env_var_calls@.unref() == env_calls_of(findings)
    &&& c.major_dependencies@.unref() == major_of(findings)
    &&& c.unparseable_dependencies@.unref() == advisory_of(findings)
    &&& c.risks@.len() + c.missing@.len() + c.orphaned@.len() + c.env_var_calls@.len()
        + c.major_dependencies@.len() + c.unparseable_dependencies@.len() == findings.len()
}

fn push_ref<'a>(v: &mut Vec<&'a Finding>, f: &'a Finding)
    ensures
        final(v)@.unref() == old(v)@.unref().push(*f),
        final(v)@.len() == old(v)@.len() + 1,
{
    let ghost before = v@;
    v.push(f);
    assert(v@.unref() =~= before.unref().push(*f));
}

/// Sorts the findings into their categories.
pub fn categorize_findings<'a>(findings: &'a Vec<Finding>) -> (r: CategorizedFindings<'a>)
    ensures
        categorizes(r, findings@),
{
    let mut c = CategorizedFindings {
        risks: Vec::new(),
        missing: Vec::new(),
        orphaned: Vec::new(),
        env_var_calls: Vec::new(),
        major_dependencies: Vec::new(),
        unparseable_dependencies: Vec::new(),
    };
    let mut i: usize = 0;
    assert(findings@.take(0) =~= Seq::empty());
    assert(c.risks@.unref() =~= Seq::empty());
    assert(c.missing@.unref() =~= Seq::empty());
    assert(c.orphaned@.unref() =~= Seq::empty());
    assert(c.env_var_calls@.unref() =~= Seq::empty());
    assert(c.major_dependencies@.unref() =~= Seq::empty());
    assert(c.unparseable_dependencies@.unref() =~= Seq::empty());
    while i < findings.len()
        invariant
            i <= findings@.len(),
            categorizes(c, findings@.take(i as int)),
        decreases findings@.len() - i,
    {
        assert(findings@.take(i + 1).drop_last() =~= findings@.take(i as int));
        let finding = &findings[i];
        match finding {
            Finding::TypeMismatch { .. } => push_ref(&mut c.risks, finding),
            Finding::MethodMismatch { .. } => push_ref(&mut c.risks, finding),
            Finding::MissingEndpoint { .. } => push_ref(&mut c.missing, finding),
            Finding::OrphanedEndpoint { .. } => push_ref(&mut c.orphaned, finding),
            Finding::EnvVarCall { .. } => push_ref(&mut c.env_var_calls, finding),
            Finding::DependencyConflict { tier, .. } => {
                if text::same_text(tier, tier::MAJOR) {
                    push_ref(&mut c.major_dependencies, finding)
                } else {
                    push_ref(&mut c.unparseable_dependencies, finding)
                }
            },
        }
        i += 1;
    }
    assert(findings@.take(i as int) =~= findings@);
    c
}

// ---------------------------------------------------------------------------
// Environment variables
// ---------------------------------------------------------------------------

/// What the calls by environment variable are grouped by.
pub struct GroupKey {
    pub env_var: String,
    pub method: String,
    pub path: String,
}

/// The model of a [`GroupKey`].
pub struct GroupKeyModel {
    pub env_var: Seq<char>,
    pub method: Seq<char>,
    pub path: Seq<char>,
}

impl DeepView for GroupKey {
    type V = GroupKeyModel;

    open spec fn deep_view(&self) -> GroupKeyModel {
        GroupKeyModel { env_var: self.env_var@, method: self.method@, path: self.path@ }
    }
}

impl Keyed for GroupKeyModel {
    open spec fn sort_key(&self) -> Seq<Seq<char>> {
        seq![self.env_var, self.method, self.path]
    }
}

impl Keyed for GroupKey {
    open spec fn sort_key(&self) -> Seq<Seq<char>> {
        seq![self.env_var@, self.method@, self.path@]
    }
}

impl SortKey for GroupKey {
    fn key_at_most(&self, other: &Self) -> (r: bool) {
        sorting::three_texts_at_most(
            &self.env_var,
            &self.method,
            &self.path,
            &other.env_var,
            &other.method,
            &other.path,
        )
    }
}

/// The group of a call by environment variable.
pub open spec fn group_key_of(f: Finding) -> GroupKeyModel {
    GroupKeyModel {
        env_var: f->env_var@,
        method: f->EnvVarCall_method@,
        path: f->EnvVarCall_path@,
    }
}

/// The groups of the calls by environment variable among the findings, as the
/// findings list them.
pub open spec fn keys_of(calls: Seq<Finding>) -> Seq<GroupKeyModel> {
    env_calls_of(calls).map_values(|f: Finding| group_key_of(f))
}

/// The groups, in order, each once.
pub open spec fn group_keys(calls: Seq<Finding>) -> Seq<GroupKeyModel> {
    sorting::dedup_by_key_spec(sorting::sorted_by_key(keys_of(calls)))
}

/// The call sites of a group, as the findings list them.
pub open spec fn sites_of(calls: Seq<Finding>, key: GroupKeyModel) -> Seq<Seq<char>>
    decreases calls.len(),
{
    if calls.len() == 0 {
        Seq::empty()
    } else {
        let before = sites_of(calls.drop_last(), key);
        if calls.last() is EnvVarCall && group_key_of(calls.last()) == key {
            before + calls.last()->EnvVarCall_call_sites.deep_view()
        } else {
            before
        }
    }
}

/// A group of calls with the same variable, method and path.
pub struct EnvVarSuggestionGroup {
    pub method: String,
    pub env_var: String,
    pub path: String,
    pub locations: Vec<String>,
}

/// The model of an [`EnvVarSuggestionGroup`].
pub struct GroupModel {
    pub key: GroupKeyModel,
    pub locations: Seq<Seq<char>>,
}

impl DeepView for EnvVarSuggestionGroup {
    type V = GroupModel;

    open spec fn deep_view(&self) -> GroupModel {
        GroupModel {
            key: GroupKeyModel {
                env_var: self.env_var@,
                method: self.method@,
                path: self.path@,
            },
            locations: self.locations.deep_view(),
        }
    }
}

/// The groups with their call sites, the sites in order and each once.
pub open spec fn groups_of(calls: Seq<Finding>) -> Seq<GroupModel> {
    group_keys(calls).map_values(
        |key: GroupKeyModel|
            GroupModel { key, locations: sorting::distinct_texts(sites_of(calls, key)) },
    )
}

fn collect_keys(calls: &Vec<&Finding>) -> (r: Vec<GroupKey>)
    ensures
        r.deep_view() == keys_of(calls@.unref()),
{
    let ghost all = calls@.unref();
    let mut keys: Vec<GroupKey> = Vec::new();
    let mut i: usize = 0;
    assert(keys.deep_view() =~= keys_of(all.take(0)));
    while i < calls.len()
        invariant
            i <= calls@.len(),
            all == calls@.unref(),
            keys.deep_view() == keys_of(all.take(i as int)),
        decreases calls@.len() - i,
    {
        assert(all.take(i + 1).drop_last() =~= all.take(i as int));
        assert(all[i as int] == *calls@[i as int]);
        if let Finding::EnvVarCall { method, path, env_var, .. } = calls[i] {
            let key = GroupKey {
                env_var: env_var.clone(),
                method: method.clone(),
                path: path.clone(),
            };
            assert(key.deep_view() == group_key_of(all[i as int]));
            text::push_deep(&mut keys, key);
        }
        i += 1;
        assert(keys.deep_view() =~= keys_of(all.take(i as int)));
    }
    assert(all.take(i as int) =~= all);
    keys
}

fn collect_sites(calls: &Vec<&Finding>, key: &GroupKey) -> (r: Vec<String>)
    ensures
        r.deep_view() == sites_of(calls@.unref(), key.deep_view()),
{
    let ghost all = calls@.unref();
    let mut sites: Vec<String> = Vec::new();
    assert(sites.deep_view() =~= Seq::empty());
    let mut i: usize = 0;
    while i < calls.len()
        invariant
            i <= calls@.len(),
            all == calls@.unref(),
            sites.deep_view() == sites_of(all.take(i as int), key.deep_view()),
        decreases calls@.len() - i,
    {
        assert(all.take(i + 1).drop_last() =~= all.take(i as int));
        assert(all[i as int] == *calls@[i as int]);
        if let Finding::EnvVarCall { method, path, env_var, call_sites } = calls[i] {
            if text::same_text(env_var, &key.env_var) && text::same_text(method, &key.method)
                && text::same_text(path, &key.path) {
                let ghost before = sites.deep_view();
                let ghost more = call_sites.deep_view();
                let mut j: usize = 0;
                assert(before + more.take(0) =~= before);
                while j < call_sites.len()
                    invariant
                        j <= call_sites@.len(),
                        more == call_sites.deep_view(),
                        sites.deep_view() == before + more.take(j as int),
                    decreases call_sites@.len() - j,
                {
                    text::push_deep(&mut sites, call_sites[j].clone());
                    j += 1;
                    assert(sites.deep_view() =~= before + more.take(j as int));
                }
                assert(more.take(j as int) =~= more);
            }
        }
        i += 1;
    }
    assert(all.take(i as int) =~= all);
    sites
}

/// Groups the calls by environment variable: by variable, method and path, in
/// order, the call sites of a group in order and each once. Findings of another
/// kind are left out.
pub fn group_env_var_suggestions(calls: &Vec<&Finding>) -> (r: Vec<EnvVarSuggestionGroup>)
    ensures
        r.deep_view() == groups_of(calls@.unref()),
{
    let unsorted = collect_keys(calls);
    let ghost all = unsorted@;
    assert(sorting::models(all) =~= unsorted.deep_view());
    proof {
        sorting::lemma_sorted_models::<GroupKeyModel, GroupKey>(all);
        sorting::lemma_dedup_models::<GroupKeyModel, GroupKey>(sorting::sorted_by_key(all));
    }
    let keys = sorting::dedup_by_key(sorting::sort_by_key(unsorted));
    assert(sorting::models(keys@) =~= keys.deep_view());
    let ghost k = keys.deep_view();
    let ghost target = groups_of(calls@.unref());
    let mut groups: Vec<EnvVarSuggestionGroup> = Vec::new();
    let mut i: usize = 0;
    assert(groups.deep_view() =~= target.take(0));
    while i < keys.len()
        invariant
            i <= keys@.len(),
            k == keys.deep_view(),
            k == group_keys(calls@.unref()),
            target == groups_of(calls@.unref()),
            groups.deep_view() == target.take(i as int),
        decreases keys@.len() - i,
    {
        let key = &keys[i];
        assert(k[i as int] == key.deep_view());
        let locations = sorting::sort_distinct(collect_sites(calls, key));
        let group = EnvVarSuggestionGroup {
            method: key.method.clone(),
            env_var: key.env_var.clone(),
            path: key.path.clone(),
            locations,
        };
        assert(group.deep_view() == target[i as int]);
        text::push_deep(&mut groups, group);
        i += 1;
        assert(groups.deep_view() =~= target.take(i as int));
    }
    assert(target.take(i as int) =~= target);
    groups
}

pub proof fn lemma_env_call_listed(findings: Seq<Finding>, f: Finding)
    ensures
        env_calls_of(findings).contains(f) <==> findings.contains(f) && f is EnvVarCall,
    decreases findings.len(),
{
    if findings.len() > 0 {
        let front = findings.drop_last();
        lemma_env_call_listed(front, f);
        let before = env_calls_of(front);
        let after = env_calls_of(findings);
        if after.contains(f) {
            let i = choose|i: int| 0 <= i < after.len() && after[i] == f;
            if i < before.len() {
                assert(before[i] == f);
                let j = choose|j: int| 0 <= j < front.len() && front[j] == f;
                assert(findings[j] == f);
            } else {
                assert(findings[findings.len() - 1] == f);
            }
        }
        if findings.contains(f) && f is EnvVarCall {
            let i = choose|i: int| 0 <= i < findings.len() && findings[i] == f;
            if i < front.len() {
                assert(front[i] == f);
                let j = choose|j: int| 0 <= j < before.len() && before[j] == f;
                assert(after[j] == f);
            } else {
                assert(after[before.len() as int] == f);
            }
        }
    }
}

/// Whether one of the findings is a call by environment variable of the group.
pub open spec fn has_group(calls: Seq<Finding>, key: GroupKeyModel) -> bool {
    exists|i: int|
        0 <= i < calls.len() && (#[trigger] calls[i]) is EnvVarCall && group_key_of(calls[i]) == key
}

/// Whether a call of the group is made at the site.
pub open spec fn has_site(calls: Seq<Finding>, key: GroupKeyModel, site: Seq<char>) -> bool {
    exists|i: int|
        0 <= i < calls.len() && (#[trigger] calls[i]) is EnvVarCall && group_key_of(calls[i]) == key
            && calls[i]->EnvVarCall_call_sites.deep_view().contains(site)
}

proof fn lemma_sites_of(calls: Seq<Finding>, key: GroupKeyModel, site: Seq<char>)
    ensures
        sites_of(calls, key).contains(site) <==> has_site(calls, key, site),
    decreases calls.len(),
{
    if calls.len() > 0 {
        let front = calls.drop_last();
        lemma_sites_of(front, key, site);
        let before = sites_of(front, key);
        let after = sites_of(calls, key);
        let added = calls.last()->EnvVarCall_call_sites.deep_view();
        if after.contains(site) {
            let i = choose|i: int| 0 <= i < after.len() && after[i] == site;
            if i < before.len() {
                assert(before[i] == site);
                let j = choose|j: int|
                    0 <= j < front.len() && (#[trigger] front[j]) is EnvVarCall && group_key_of(
                        front[j],
                    ) == key && front[j]->EnvVarCall_call_sites.deep_view().contains(site);
                assert(calls[j] == front[j]);
            } else {
                assert(added[i - before.len()] == site);
                assert(calls[calls.len() - 1] == calls.last());
            }
        }
        if has_site(calls, key, site) {
            let j = choose|j: int|
                0 <= j < calls.len() && (#[trigger] calls[j]) is EnvVarCall && group_key_of(
                    calls[j],
                ) == key && calls[j]->EnvVarCall_call_sites.deep_view().contains(site);
            if j < front.len() {
                assert(front[j] == calls[j]);
                let i = choose|i: int| 0 <= i < before.len() && before[i] == site;
                assert(after[i] == site);
            } else {
                let i = choose|i: int| 0 <= i < added.len() && added[i] == site;
                assert(after[before.len() + i] == site);
            }
        }
    }
}

/// Whatever findings go in, the groups stand in ascending order, are exactly
/// those of the calls by environment variable among the findings, and each
/// lists exactly the sites of its calls, in order and each once.
pub proof fn law_env_var_groups(calls: Seq<Finding>)
    ensures
        sorting::keys_ordered(group_keys(calls)),
        sorting::keys_distinct(group_keys(calls)),
        groups_of(calls).map_values(|g: GroupModel| g.key) == group_keys(calls),
        forall|key: GroupKeyModel| #[trigger]
            group_keys(calls).contains(key) <==> has_group(calls, key),
        forall|i: int|
            #![trigger groups_of(calls)[i]]
            0 <= i < groups_of(calls).len() ==> {
                let g = groups_of(calls)[i];
                &&& sorting::keys_ordered(g.locations)
                &&& g.locations.no_duplicates()
                &&& forall|site: Seq<char>| #[trigger]
                    g.locations.contains(site) <==> has_site(calls, g.key, site)
            },
{
    let listed = keys_of(calls);
    let env = env_calls_of(calls);
    let keys = group_keys(calls);
    sorting::lemma_sorted_by_key(listed);
    sorting::lemma_dedup_by_key(sorting::sorted_by_key(listed));
    sorting::lemma_distinct_keys(listed);
    assert(groups_of(calls).map_values(|g: GroupModel| g.key) =~= keys);
    assert forall|key: GroupKeyModel| #[trigger] keys.contains(key) <==> has_group(calls, key) by {
        if keys.contains(key) {
            let i = choose|i: int| 0 <= i < keys.len() && keys[i] == key;
            assert(sorting::has_key(keys, keys[i].sort_key()));
            assert(sorting::has_key(listed, key.sort_key()));
            let j = choose|j: int|
                0 <= j < listed.len() && (#[trigger] listed[j]).sort_key() == key.sort_key();
            lemma_group_key(listed[j], key);
            assert(env.contains(env[j]));
            lemma_env_call_listed(calls, env[j]);
            let n = choose|n: int| 0 <= n < calls.len() && calls[n] == env[j];
            assert(calls[n] is EnvVarCall && group_key_of(calls[n]) == key);
        }
        if has_group(calls, key) {
            let n = choose|n: int|
                0 <= n < calls.len() && (#[trigger] calls[n]) is EnvVarCall && group_key_of(
                    calls[n],
                ) == key;
            assert(calls.contains(calls[n]));
            lemma_env_call_listed(calls, calls[n]);
            let j = choose|j: int| 0 <= j < env.len() && env[j] == calls[n];
            assert(listed[j].sort_key() == key.sort_key());
            assert(sorting::has_key(listed, key.sort_key()));
            assert(sorting::has_key(keys, key.sort_key()));
            let i = choose|i: int|
                0 <= i < keys.len() && (#[trigger] keys[i]).sort_key() == key.sort_key();
            lemma_group_key(keys[i], key);
        }
    }
    assert forall|i: int|
        #![trigger groups_of(calls)[i]]
        0 <= i < groups_of(calls).len() implies {
        let g = groups_of(calls)[i];
        &&& sorting::keys_ordered(g.locations)
        &&& g.locations.no_duplicates()
        &&& forall|site: Seq<char>| #[trigger]
            g.locations.contains(site) <==> has_site(calls, g.key, site)
    } by {
        let g = groups_of(calls)[i];
        let sites = sites_of(calls, g.key);
        assert(g.locations == sorting::distinct_texts(sites));
        sorting::law_distinct_texts(sites);
        assert forall|site: Seq<char>| #[trigger] g.locations.contains(site) <==> has_site(
            calls,
            g.key,
            site,
        ) by {
            lemma_sites_of(calls, g.key, site);
            assert(sorting::distinct_texts(sites).contains(site) <==> sites.contains(site));
        }
    }
}

proof fn lemma_group_key(a: GroupKeyModel, b: GroupKeyModel)
    requires
        a.sort_key() == b.sort_key(),
    ensures
        a == b,
{
    assert(a.sort_key()[0] == b.sort_key()[0]);
    assert(a.sort_key()[1] == b.sort_key()[1]);
    assert(a.sort_key()[2] == b.sort_key()[2]);
}

// ---------------------------------------------------------------------------
// The changes of a pull request
// ---------------------------------------------------------------------------

/// Whether two path segments may name the same thing: equal, or one of them a
/// parameter.
pub open spec fn segments_overlap(a: Seq<char>, b: Seq<char>) -> bool {
    mount_graph::is_param_segment_spec(a) || mount_graph::is_param_segment_spec(b) || a == b
}

/// Whether two operations may be the same route.
pub open spec fn overlap(
    a_method: Seq<char>,
    a_path: Seq<char>,
    b_method: Seq<char>,
    b_path: Seq<char>,
) -> bool {
    let a = text::split_spec(a_path, '/');
    let b = text::split_spec(b_path, '/');
    &&& text::same_ignoring_ascii_case(a_method, b_method)
    &&& a.len() == b.len()
    &&& forall|i: int| 0 <= i < a.len() ==> segments_overlap(#[trigger] a[i], #[trigger] b[i])
}

/// Whether a removed endpoint and a missing one name the same route: methods
/// up to case, paths segment by segment, a parameter on either side matching
/// anything.
pub fn endpoints_overlap(a_method: &str, a_path: &str, b_method: &str, b_path: &str) -> (r: bool)
    ensures
        r == overlap(a_method@, a_path@, b_method@, b_path@),
{
    if !text::eq_ignore_ascii_case(a_method, b_method) {
        return false;
    }
    let a = text::split(a_path, '/');
    let b = text::split(b_path, '/');
    let ghost sa = a.deep_view();
    let ghost sb = b.deep_view();
    if a.len() != b.len() {
        return false;
    }
    let mut i: usize = 0;
    while i < a.len()
        invariant
            i <= a@.len(),
            a@.len() == b@.len(),
            sa == a.deep_view(),
            sb == b.deep_view(),
            sa == text::split_spec(a_path@, '/'),
            sb == text::split_spec(b_path@, '/'),
            forall|k: int| 0 <= k < i ==> segments_overlap(#[trigger] sa[k], #[trigger] sb[k]),
        decreases a@.len() - i,
    {
        assert(sa[i as int] == a@[i as int]@);
        assert(sb[i as int] == b@[i as int]@);
        if !(mount_graph::is_param_segment(&a[i]) || mount_graph::is_param_segment(&b[i])
            || text::same_text(&a[i], &b[i])) {
            assert(!segments_overlap(sa[i as int], sb[i as int]));
            return false;
        }
        i += 1;
    }
    true
}

/// Overlap does not depend on which side comes first.
pub proof fn law_overlap_symmetric(
    a_method: Seq<char>,
    a_path: Seq<char>,
    b_method: Seq<char>,
    b_path: Seq<char>,
)
    ensures
        overlap(a_method, a_path, b_method, b_path) == overlap(b_method, b_path, a_method, a_path),
{
    let a = text::split_spec(a_path, '/');
    let b = text::split_spec(b_path, '/');
    if overlap(a_method, a_path, b_method, b_path) {
        assert forall|i: int| 0 <= i < b.len() implies segments_overlap(
            #[trigger] b[i],
            #[trigger] a[i],
        ) by {
            assert(segments_overlap(a[i], b[i]));
        }
    }
    if overlap(b_method, b_path, a_method, a_path) {
        assert forall|i: int| 0 <= i < a.len() implies segments_overlap(
            #[trigger] a[i],
            #[trigger] b[i],
        ) by {
            assert(segments_overlap(b[i], a[i]));
        }
    }
}

/// The service behind an operation; nothing where there is no name to show.
pub open spec fn service_suffix_spec(service: Option<String>) -> Seq<char> {
    match service {
        Some(s) => if code_span_spec(s@).len() == 0 {
            ""@
        } else {
            " (`"@ + code_span_spec(s@) + "`)"@
        },
        None => ""@,
    }
}

fn service_suffix(service: &Option<String>) -> (r: String)
    ensures
        r@ == service_suffix_spec(*service),
{
    match service {
        Some(s) => {
            let span = code_span(s);
            if span.as_str().is_empty() {
                text::owned("")
            } else {
                text::cat3(" (`", &span, "`)")
            }
        },
        None => text::owned(""),
    }
}

/// An operation with its service, as inline code.
pub open spec fn endpoint_ref_spec(e: EndpointRef) -> Seq<char> {
    "`"@ + code_span_spec(e.method@) + " "@ + code_span_spec(e.path@) + "`"@ + service_suffix_spec(
        e.service,
    )
}

fn render_endpoint_ref(e: &EndpointRef) -> (r: String)
    ensures
        r@ == endpoint_ref_spec(*e),
{
    let mut out = text::cat5("`", &code_span(&e.method), " ", &code_span(&e.path), "`");
    out.append(&service_suffix(&e.service));
    out
}

/// Whether something still calls a removed endpoint: a missing endpoint names
/// the same route.
pub open spec fn still_consumed(e: EndpointRef, missing: Seq<Finding>) -> bool {
    exists|i: int|
        0 <= i < missing.len() && (#[trigger] missing[i]) is MissingEndpoint && overlap(
            e.method@,
            e.path@,
            missing[i]->MissingEndpoint_method@,
            missing[i]->MissingEndpoint_path@,
        )
}

fn is_still_consumed(e: &EndpointRef, missing: &Vec<&Finding>) -> (r: bool)
    ensures
        r == still_consumed(*e, missing@.unref()),
{
    let ghost m = missing@.unref();
    let mut i: usize = 0;
    while i < missing.len()
        invariant
            i <= missing@.len(),
            m == missing@.unref(),
            forall|k: int|
                0 <= k < i && (#[trigger] m[k]) is MissingEndpoint ==> !overlap(
                    e.method@,
                    e.path@,
                    m[k]->MissingEndpoint_method@,
                    m[k]->MissingEndpoint_path@,
                ),
        decreases missing@.len() - i,
    {
        assert(m[i as int] == *missing@[i as int]);
        if let Finding::MissingEndpoint { method, path, .. } = missing[i] {
            if endpoints_overlap(&e.method, &e.path, method, path) {
                assert(still_consumed(*e, m));
                return true;
            }
        }
        i += 1;
    }
    false
}

/// The lines of the added endpoints.
pub open spec fn new_lines(endpoints: Seq<EndpointRef>) -> Seq<char>
    decreases endpoints.len(),
{
    if endpoints.len() == 0 {
        ""@
    } else {
        new_lines(endpoints.drop_last()) + "- New endpoint "@ + endpoint_ref_spec(endpoints.last())
            + "\n"@
    }
}

/// The lines of the removed endpoints, flagged where something still calls
/// them.
pub open spec fn removed_lines(endpoints: Seq<EndpointRef>, missing: Seq<Finding>) -> Seq<char>
    decreases endpoints.len(),
{
    if endpoints.len() == 0 {
        ""@
    } else {
        let e = endpoints.last();
        removed_lines(endpoints.drop_last(), missing) + "- Removed "@ + endpoint_ref_spec(e) + (
        if still_consumed(e, missing) {
            " — ⚠ still consumed"@
        } else {
            ""@
        }) + "\n"@
    }
}

/// The block on what a pull request changes; nothing where it changes nothing.
pub open spec fn pr_delta_spec(delta: Option<PrDelta>, missing: Seq<Finding>) -> Seq<char> {
    match delta {
        Some(d) => if d.new_endpoints@.len() == 0 && d.removed_endpoints@.len() == 0 {
            ""@
        } else {
            "**In this PR**\n\n"@ + new_lines(d.new_endpoints@) + removed_lines(
                d.removed_endpoints@,
                missing,
            ) + "\n"@
        },
        None => ""@,
    }
}

/// The model of an optional borrowed delta.
pub open spec fn delta_of(delta: Option<&PrDelta>) -> Option<PrDelta> {
    match delta {
        Some(d) => Some(*d),
        None => None,
    }
}

/// Renders the block on what a pull request changes.
pub fn format_pr_delta(pr_delta: Option<&PrDelta>, missing: &Vec<&Finding>) -> (r: String)
    ensures
        r@ == pr_delta_spec(delta_of(pr_delta), missing@.unref()),
{
    let delta = match pr_delta {
        Some(d) => d,
        None => {
            return text::owned("");
        },
    };
    if delta.is_empty() {
        return text::owned("");
    }
    let added = &delta.new_endpoints;
    let mut new_text = text::owned("");
    let mut i: usize = 0;
    while i < added.len()
        invariant
            i <= added@.len(),
            new_text@ == new_lines(added@.take(i as int)),
        decreases added@.len() - i,
    {
        assert(added@.take(i + 1).drop_last() =~= added@.take(i as int));
        new_text.append("- New endpoint ");
        new_text.append(&render_endpoint_ref(&added[i]));
        new_text.append("\n");
        i += 1;
    }
    assert(added@.take(i as int) =~= added@);
    let removed = &delta.removed_endpoints;
    let mut removed_text = text::owned("");
    let mut j: usize = 0;
    while j < removed.len()
        invariant
            j <= removed@.len(),
            removed_text@ == removed_lines(removed@.take(j as int), missing@.unref()),
        decreases removed@.len() - j,
    {
        assert(removed@.take(j + 1).drop_last() =~= removed@.take(j as int));
        let flag = if is_still_consumed(&removed[j], missing) {
            " — ⚠ still consumed"
        } else {
            ""
        };
        removed_text.append("- Removed ");
        removed_text.append(&render_endpoint_ref(&removed[j]));
        removed_text.append(flag);
        removed_text.append("\n");
        j += 1;
    }
    assert(removed@.take(j as int) =~= removed@);
    text::cat4("**In this PR**\n\n", &new_text, &removed_text, "\n")
}

// ---------------------------------------------------------------------------
// Sections
// ---------------------------------------------------------------------------

/// What a contract risk is about.
pub open spec fn risk_endpoint(f: Finding) -> Seq<char> {
    match f {
        Finding::TypeMismatch { method, path, .. } => method@ + " "@ + path@,
        Finding::MethodMismatch { method, path, .. } => method@ + " "@ + path@,
        _ => ""@,
    }
}

/// What is wrong with it.
pub open spec fn risk_detail(f: Finding) -> Seq<char> {
    match f {
        Finding::TypeMismatch { producer_type, consumer_type, detail, .. } => "producer `"@
            + producer_type@ + "` vs consumer `"@ + consumer_type@ + "`: "@ + detail@,
        Finding::MethodMismatch { method, expected_method, .. } => "call uses `"@ + method@
            + "` but the producer expects `"@ + expected_method@ + "`"@,
        _ => ""@,
    }
}

/// The table rows of the contract risks.
pub open spec fn risk_rows(risks: Seq<Finding>) -> Seq<char>
    decreases risks.len(),
{
    if risks.len() == 0 {
        ""@
    } else {
        risk_rows(risks.drop_last()) + "| `"@ + cell_spec(risk_endpoint(risks.last())) + "` | "@
            + cell_spec(risk_detail(risks.last())) + " |\n"@
    }
}

/// The section on contract risks.
pub open spec fn critical_spec(risks: Seq<Finding>) -> Seq<char> {
    "<details>\n<summary><strong>Contract risks ("@ + text::decimal(risks.len())
        + ")</strong></summary>\n\n"@
        + "> A consumer call conflicts with the producer it targets in the index. These break the consumer at runtime.\n\n"@
        + "| Endpoint | Issue |\n| :--- | :--- |\n"@ + risk_rows(risks) + "\n</details>"@
}

fn format_critical_section(risks: &Vec<&Finding>) -> (r: String)
    requires
        forall|i: int| 0 <= i < risks@.len() ==> is_risk(*(#[trigger] risks@[i])),
    ensures
        r@ == critical_spec(risks@.unref()),
{
    let ghost all = risks@.unref();
    let mut rows = text::owned("");
    let mut i: usize = 0;
    while i < risks.len()
        invariant
            i <= risks@.len(),
            all == risks@.unref(),
            forall|k: int| 0 <= k < risks@.len() ==> is_risk(*(#[trigger] risks@[k])),
            rows@ == risk_rows(all.take(i as int)),
        decreases risks@.len() - i,
    {
        assert(all.take(i + 1).drop_last() =~= all.take(i as int));
        assert(all[i as int] == *risks@[i as int]);
        assert(is_risk(*risks@[i as int]));
        let (endpoint, detail) = match risks[i] {
            Finding::TypeMismatch { method, path, producer_type, consumer_type, detail, .. } => {
                let mut d = text::cat5(
                    "producer `",
                    producer_type,
                    "` vs consumer `",
                    consumer_type,
                    "`: ",
                );
                d.append(detail);
                (text::cat3(method, " ", path), d)
            },
            Finding::MethodMismatch { method, path, expected_method, .. } => (
                text::cat3(method, " ", path),
                text::cat5(
                    "call uses `",
                    method,
                    "` but the producer expects `",
                    expected_method,
                    "`",
                ),
            ),
            _ => (text::owned(""), text::owned("")),
        };
        rows.append("| `");
        rows.append(&cell(&endpoint));
        rows.append("` | ");
        rows.append(&cell(&detail));
        rows.append(" |\n");
        i += 1;
    }
    assert(all.take(i as int) =~= all);
    let mut out = text::cat3(
        "<details>\n<summary><strong>Contract risks (",
        &number(risks.len()),
        ")</strong></summary>\n\n",
    );
    out.append(
        "> A consumer call conflicts with the producer it targets in the index. These break the consumer at runtime.\n\n",
    );
    out.append("| Endpoint | Issue |\n| :--- | :--- |\n");
    out.append(&rows);
    out.append("\n</details>");
    out
}

/// Where a missing endpoint is called from.
pub open spec fn called_from_spec(call_sites: Seq<Seq<char>>) -> Seq<char> {
    if call_sites.len() == 0 {
        "-"@
    } else {
        "`"@ + code_cell_spec(text::join_spec(call_sites, ", "@)) + "`"@
    }
}

/// The table rows of the missing endpoints; a finding of another kind has none.
pub open spec fn missing_rows(missing: Seq<Finding>) -> Seq<char>
    decreases missing.len(),
{
    if missing.len() == 0 {
        ""@
    } else {
        let before = missing_rows(missing.drop_last());
        match missing.last() {
            Finding::MissingEndpoint { method, path, call_sites, .. } => before + "| `"@
                + code_cell_spec(method@) + "` | `"@ + code_cell_spec(path@) + "` | "@
                + called_from_spec(call_sites.deep_view()) + " |\n"@,
            _ => before,
        }
    }
}

/// The cell of the owning service.
pub open spec fn service_cell_spec(service: Option<String>) -> Seq<char> {
    match service {
        Some(s) => "`"@ + code_cell_spec(s@) + "`"@,
        None => "-"@,
    }
}

/// The table rows of the orphaned endpoints, with or without the service; a
/// finding of another kind has none.
pub open spec fn orphaned_rows(orphaned: Seq<Finding>, with_service: bool) -> Seq<char>
    decreases orphaned.len(),
{
    if orphaned.len() == 0 {
        ""@
    } else {
        let before = orphaned_rows(orphaned.drop_last(), with_service);
        match orphaned.last() {
            Finding::OrphanedEndpoint { method, path, service } => {
                let start = before + "| `"@ + code_cell_spec(method@) + "` | `"@ + code_cell_spec(
                    path@,
                );
                if with_service {
                    start + "` | "@ + service_cell_spec(service) + " |\n"@
                } else {
                    start + "` |\n"@
                }
            },
            _ => before,
        }
    }
}

/// Whether one of the orphaned endpoints has an owning service.
pub open spec fn any_attributed(orphaned: Seq<Finding>) -> bool {
    exists|i: int|
        0 <= i < orphaned.len() && (#[trigger] orphaned[i]) is OrphanedEndpoint
            && orphaned[i]->OrphanedEndpoint_service is Some
}

/// The section on connectivity.
pub open spec fn connectivity_spec(
    missing: Seq<Finding>,
    orphaned: Seq<Finding>,
    has_baseline: bool,
) -> Seq<char> {
    let head = "<details>\n<summary><strong>"@ + (if has_baseline {
        "Connectivity"@
    } else {
        "Connectivity Observations"@
    }) + " ("@ + text::decimal(missing.len() + orphaned.len()) + ")</strong></summary>\n\n"@
        + "> Orphaned endpoints have no consumer in the indexed services. Missing endpoints have a consumer call but no producer.\n\n"@;
    let first = if has_baseline {
        ""@
    } else {
        "> **First repo indexed for this project.** With nothing else to match against, every endpoint without a same-repo consumer is listed below; most resolve once you connect the repos that call them.\n\n"@
    };
    let missing_part = if missing.len() == 0 {
        ""@
    } else {
        "**Missing ("@ + text::decimal(missing.len()) + ")**\n\n"@
            + "| Method | Path | Called from |\n| :--- | :--- | :--- |\n"@ + missing_rows(missing)
            + "\n"@
    };
    let orphaned_part = if orphaned.len() == 0 {
        ""@
    } else {
        "**Orphaned ("@ + text::decimal(orphaned.len()) + ")**\n\n"@ + (if any_attributed(
            orphaned,
        ) {
            "| Method | Path | Service |\n| :--- | :--- | :--- |\n"@
        } else {
            "| Method | Path |\n| :--- | :--- |\n"@
        }) + orphaned_rows(orphaned, any_attributed(orphaned))
    };
    head + first + missing_part + orphaned_part + "\n</details>"@
}

fn format_missing(missing: &Vec<&Finding>) -> (r: String)
    ensures
        r@ == missing_rows(missing@.unref()),
{
    let ghost all = missing@.unref();
    let mut rows = text::owned("");
    let mut i: usize = 0;
    while i < missing.len()
        invariant
            i <= missing@.len(),
            all == missing@.unref(),
            rows@ == missing_rows(all.take(i as int)),
        decreases missing@.len() - i,
    {
        assert(all.take(i + 1).drop_last() =~= all.take(i as int));
        assert(all[i as int] == *missing@[i as int]);
        if let Finding::MissingEndpoint { method, path, call_sites, .. } = missing[i] {
            let called_from = if call_sites.len() == 0 {
                text::owned("-")
            } else {
                text::cat3("`", &code_cell(&text::join(call_sites, ", ")), "`")
            };
            rows.append("| `");
            rows.append(&code_cell(method));
            rows.append("` | `");
            rows.append(&code_cell(path));
            rows.append("` | ");
            rows.append(&called_from);
            rows.append(" |\n");
        }
        i += 1;
    }
    assert(all.take(i as int) =~= all);
    rows
}

fn has_attribution(orphaned: &Vec<&Finding>) -> (r: bool)
    ensures
        r == any_attributed(orphaned@.unref()),
{
    let ghost all = orphaned@.unref();
    let mut i: usize = 0;
    while i < orphaned.len()
        invariant
            i <= orphaned@.len(),
            all == orphaned@.unref(),
            forall|k: int|
                0 <= k < i && (#[trigger] all[k]) is OrphanedEndpoint
                    ==> all[k]->OrphanedEndpoint_service is None,
        decreases orphaned@.len() - i,
    {
        assert(all[i as int] == *orphaned@[i as int]);
        if let Finding::OrphanedEndpoint { service, .. } = orphaned[i] {
            if service.is_some() {
                assert(any_attributed(all));
                return true;
            }
        }
        i += 1;
    }
    false
}

fn format_orphaned(orphaned: &Vec<&Finding>, with_service: bool) -> (r: String)
    ensures
        r@ == orphaned_rows(orphaned@.unref(), with_service),
{
    let ghost all = orphaned@.unref();
    let mut rows = text::owned("");
    let mut i: usize = 0;
    while i < orphaned.len()
        invariant
            i <= orphaned@.len(),
            all == orphaned@.unref(),
            rows@ == orphaned_rows(all.take(i as int), with_service),
        decreases orphaned@.len() - i,
    {
        assert(all.take(i + 1).drop_last() =~= all.take(i as int));
        assert(all[i as int] == *orphaned@[i as int]);
        if let Finding::OrphanedEndpoint { method, path, service } = orphaned[i] {
            rows.append("| `");
            rows.append(&code_cell(method));
            rows.append("` | `");
            rows.append(&code_cell(path));
            if with_service {
                rows.append("` | ");
                let owner = match service {
                    Some(s) => text::cat3("`", &code_cell(s), "`"),
                    None => text::owned("-"),
                };
                rows.append(&owner);
                rows.append(" |\n");
            } else {
                rows.append("` |\n");
            }
        }
        i += 1;
    }
    assert(all.take(i as int) =~= all);
    rows
}

/// Renders the section on connectivity.
pub fn format_connectivity_section(
    missing: &Vec<&Finding>,
    orphaned: &Vec<&Finding>,
    has_baseline: bool,
) -> (r: String)
    ensures
        r@ == connectivity_spec(missing@.unref(), orphaned@.unref(), has_baseline),
{
    let heading = if has_baseline {
        "Connectivity"
    } else {
        "Connectivity Observations"
    };
    let mut head = text::cat5(
        "<details>\n<summary><strong>",
        heading,
        " (",
        &text::decimal_text_wide(missing.len() as u128 + orphaned.len() as u128),
        ")</strong></summary>\n\n",
    );
    head.append(
        "> Orphaned endpoints have no consumer in the indexed services. Missing endpoints have a consumer call but no producer.\n\n",
    );
    let first = if has_baseline {
        ""
    } else {
        "> **First repo indexed for this project.** With nothing else to match against, every endpoint without a same-repo consumer is listed below; most resolve once you connect the repos that call them.\n\n"
    };
    let missing_part = if missing.len() == 0 {
        text::owned("")
    } else {
        let mut part = text::cat3("**Missing (", &number(missing.len()), ")**\n\n");
        part.append("| Method | Path | Called from |\n| :--- | :--- | :--- |\n");
        part.append(&format_missing(missing));
        part.append("\n");
        part
    };
    let orphaned_part = if orphaned.len() == 0 {
        text::owned("")
    } else {
        let attributed = has_attribution(orphaned);
        let mut part = text::cat3("**Orphaned (", &number(orphaned.len()), ")**\n\n");
        if attributed {
            part.append("| Method | Path | Service |\n| :--- | :--- | :--- |\n");
        } else {
            part.append("| Method | Path |\n| :--- | :--- |\n");
        }
        part.append(&format_orphaned(orphaned, attributed));
        part
    };
    text::cat5(&head, first, &missing_part, &orphaned_part, "\n</details>")
}

/// The first three locations of a group, one to a line.
pub open spec fn location_lines(locations: Seq<Seq<char>>) -> Seq<char>
    decreases locations.len(),
{
    if locations.len() == 0 {
        ""@
    } else {
        location_lines(locations.drop_last()) + "    - `"@ + locations.last() + "`\n"@
    }
}

/// The lines of a group.
pub open spec fn group_lines(g: GroupModel) -> Seq<char> {
    let n = g.locations.len();
    let count = if n == 0 {
        1nat
    } else {
        n
    };
    "  - `"@ + g.key.method + " "@ + g.key.path + "` using **["@ + g.key.env_var + "]** ("@
        + text::decimal(count) + " call site"@ + plural_spec(count) + ")\n"@ + location_lines(
        if n > 3 {
            g.locations.take(3)
        } else {
            g.locations
        },
    ) + (if n > 3 {
        "    - … +"@ + text::decimal((n - 3) as nat) + " more\n"@
    } else {
        ""@
    })
}

/// The lines of all the groups.
pub open spec fn all_group_lines(groups: Seq<GroupModel>) -> Seq<char>
    decreases groups.len(),
{
    if groups.len() == 0 {
        ""@
    } else {
        all_group_lines(groups.drop_last()) + group_lines(groups.last())
    }
}

/// The section on configuration.
pub open spec fn configuration_spec(groups: Seq<GroupModel>) -> Seq<char> {
    "<details>\n<summary><strong>Configuration suggestions ("@ + text::decimal(groups.len())
        + ")</strong></summary>\n\n"@
        + "> These calls use environment variables to construct the URL. Add them to `internalEnvVars` (to validate routes) or `externalEnvVars` (to ignore) in your `carrick.json`.\n\n"@
        + all_group_lines(groups) + "\n</details>"@
}

fn format_group(g: &EnvVarSuggestionGroup) -> (r: String)
    ensures
        r@ == group_lines(g.deep_view()),
{
    let n: usize = g.locations.len();
    let count: usize = if n == 0 { 1 } else { n };
    let ghost all = g.locations.deep_view();
    let shown: usize = if n > 3 { 3 } else { n };
    let mut lines = text::owned("");
    let mut i: usize = 0;
    while i < shown
        invariant
            i <= shown <= g.locations@.len(),
            all == g.locations.deep_view(),
            lines@ == location_lines(all.take(i as int)),
        decreases shown - i,
    {
        assert(all.take(i + 1).drop_last() =~= all.take(i as int));
        assert(all[i as int] == g.locations@[i as int]@);
        lines.append("    - `");
        lines.append(&g.locations[i]);
        lines.append("`\n");
        i += 1;
    }
    proof {
        if n <= 3 {
            assert(all.take(i as int) =~= all);
        }
    }
    let mut out = text::cat7(
        "  - `",
        &g.method,
        " ",
        &g.path,
        "` using **[",
        &g.env_var,
        "]** (",
    );
    out.append(&number(count));
    out.append(" call site");
    out.append(plural(count));
    out.append(")\n");
    out.append(&lines);
    let more = if n > 3 {
        text::cat3("    - … +", &number(n - 3), " more\n")
    } else {
        text::owned("")
    };
    out.append(&more);
    out
}

fn format_configuration_section(groups: &Vec<EnvVarSuggestionGroup>) -> (r: String)
    ensures
        r@ == configuration_spec(groups.deep_view()),
{
    let ghost all = groups.deep_view();
    let mut lines = text::owned("");
    let mut i: usize = 0;
    while i < groups.len()
        invariant
            i <= groups@.len(),
            all == groups.deep_view(),
            lines@ == all_group_lines(all.take(i as int)),
        decreases groups@.len() - i,
    {
        assert(all.take(i + 1).drop_last() =~= all.take(i as int));
        assert(all[i as int] == groups@[i as int].deep_view());
        lines.append(&format_group(&groups[i]));
        i += 1;
    }
    assert(all.take(i as int) =~= all);
    let mut out = text::cat3(
        "<details>\n<summary><strong>Configuration suggestions (",
        &number(groups.len()),
        ")</strong></summary>\n\n",
    );
    out.append(
        "> These calls use environment variables to construct the URL. Add them to `internalEnvVars` (to validate routes) or `externalEnvVars` (to ignore) in your `carrick.json`.\n\n",
    );
    out.append(&lines);
    out.append("\n</details>");
    out
}

/// The table rows of a package's versions.
pub open spec fn version_rows(versions: Seq<PackageVersionRef>) -> Seq<char>
    decreases versions.len(),
{
    if versions.len() == 0 {
        ""@
    } else {
        let v = versions.last();
        version_rows(versions.drop_last()) + "| `"@ + code_cell_spec(v.repo@) + "` | `"@
            + code_cell_spec(v.version@) + "` | `"@ + code_cell_spec(v.source@) + "` |\n"@
    }
}

/// The tables of a group of conflicts.
pub open spec fn conflict_tables(conflicts: Seq<Finding>) -> Seq<char>
    decreases conflicts.len(),
{
    if conflicts.len() == 0 {
        ""@
    } else {
        let f = conflicts.last();
        conflict_tables(conflicts.drop_last()) + "#### "@ + f->package_name@ + "\n\n"@
            + "| Repository | Version | Source |\n| :--- | :--- | :--- |\n"@ + version_rows(
            f->versions@,
        ) + "\n"@
    }
}

/// A group of conflicts under its heading; nothing where there are none.
pub open spec fn conflict_group(heading: Seq<char>, conflicts: Seq<Finding>) -> Seq<char> {
    if conflicts.len() == 0 {
        ""@
    } else {
        "### "@ + heading + " ("@ + text::decimal(conflicts.len()) + ")\n\n"@ + conflict_tables(
            conflicts,
        )
    }
}

/// The section on dependency conflicts.
pub open spec fn dependency_spec(major: Seq<Finding>, unparseable: Seq<Finding>) -> Seq<char> {
    "<details>\n<summary><strong>Dependency conflicts ("@ + text::decimal(
        major.len() + unparseable.len(),
    ) + ")</strong></summary>\n\n"@
        + "> Packages with different versions across services in the index.\n\n"@ + conflict_group(
        "Major version conflicts"@,
        major,
    ) + conflict_group("Unparseable version pins (advisory)"@, unparseable) + "</details>"@
}

fn format_versions(versions: &Vec<PackageVersionRef>) -> (r: String)
    ensures
        r@ == version_rows(versions@),
{
    let mut rows = text::owned("");
    let mut i: usize = 0;
    while i < versions.len()
        invariant
            i <= versions@.len(),
            rows@ == version_rows(versions@.take(i as int)),
        decreases versions@.len() - i,
    {
        assert(versions@.take(i + 1).drop_last() =~= versions@.take(i as int));
        rows.append("| `");
        rows.append(&code_cell(&versions[i].repo));
        rows.append("` | `");
        rows.append(&code_cell(&versions[i].version));
        rows.append("` | `");
        rows.append(&code_cell(&versions[i].source));
        rows.append("` |\n");
        i += 1;
    }
    assert(versions@.take(i as int) =~= versions@);
    rows
}

fn format_conflict_group(heading: &str, conflicts: &Vec<&Finding>) -> (r: String)
    requires
        forall|i: int|
            0 <= i < conflicts@.len() ==> (#[trigger] conflicts@[i]) is DependencyConflict,
    ensures
        r@ == conflict_group(heading@, conflicts@.unref()),
{
    if conflicts.len() == 0 {
        return text::owned("");
    }
    let ghost all = conflicts@.unref();
    let mut tables = text::owned("");
    let mut i: usize = 0;
    while i < conflicts.len()
        invariant
            i <= conflicts@.len(),
            all == conflicts@.unref(),
            forall|k: int|
                0 <= k < conflicts@.len() ==> (#[trigger] conflicts@[k]) is DependencyConflict,
            tables@ == conflict_tables(all.take(i as int)),
        decreases conflicts@.len() - i,
    {
        assert(all.take(i + 1).drop_last() =~= all.take(i as int));
        assert(all[i as int] == *conflicts@[i as int]);
        assert(conflicts@[i as int] is DependencyConflict);
        if let Finding::DependencyConflict { package_name, versions, .. } = conflicts[i] {
            tables.append("#### ");
            tables.append(package_name);
            tables.append("\n\n");
            tables.append("| Repository | Version | Source |\n| :--- | :--- | :--- |\n");
            tables.append(&format_versions(versions));
            tables.append("\n");
        }
        i += 1;
    }
    assert(all.take(i as int) =~= all);
    let mut out = text::cat5("### ", heading, " (", &number(conflicts.len()), ")\n\n");
    out.append(&tables);
    out
}

fn format_dependency_section(major: &Vec<&Finding>, unparseable: &Vec<&Finding>) -> (r: String)
    requires
        forall|i: int| 0 <= i < major@.len() ==> (#[trigger] major@[i]) is DependencyConflict,
        forall|i: int|
            0 <= i < unparseable@.len() ==> (#[trigger] unparseable@[i]) is DependencyConflict,
        major@.len() + unparseable@.len() <= usize::MAX,
    ensures
        r@ == dependency_spec(major@.unref(), unparseable@.unref()),
{
    let mut out = text::cat3(
        "<details>\n<summary><strong>Dependency conflicts (",
        &number(major.len() + unparseable.len()),
        ")</strong></summary>\n\n",
    );
    out.append("> Packages with different versions across services in the index.\n\n");
    out.append(&format_conflict_group("Major version conflicts", major));
    out.append(&format_conflict_group("Unparseable version pins (advisory)", unparseable));
    out.append("</details>");
    out
}

/// The table rows of the verified endpoints.
pub open spec fn verified_rows(verified: Seq<(String, String)>) -> Seq<char>
    decreases verified.len(),
{
    if verified.len() == 0 {
        ""@
    } else {
        verified_rows(verified.drop_last()) + "| `"@ + verified.last().0@ + "` | `"@
            + verified.last().1@ + "` |\n"@
    }
}

/// The section on verified endpoints.
pub open spec fn verified_spec(verified: Seq<(String, String)>) -> Seq<char> {
    "<details>\n<summary><strong>Verified ("@ + text::decimal(verified.len())
        + ")</strong></summary>\n\n"@
        + "> Endpoints with at least one matching consumer call. Types were resolved and compared by the TypeScript compiler pass.\n\n"@
        + "| Method | Path |\n| :--- | :--- |\n"@ + verified_rows(verified) + "\n</details>"@
}

fn format_verified_section(verified: &Vec<(String, String)>) -> (r: String)
    ensures
        r@ == verified_spec(verified@),
{
    let mut rows = text::owned("");
    let mut i: usize = 0;
    while i < verified.len()
        invariant
            i <= verified@.len(),
            rows@ == verified_rows(verified@.take(i as int)),
        decreases verified@.len() - i,
    {
        assert(verified@.take(i + 1).drop_last() =~= verified@.take(i as int));
        rows.append("| `");
        rows.append(&verified[i].0);
        rows.append("` | `");
        rows.append(&verified[i].1);
        rows.append("` |\n");
        i += 1;
    }
    assert(verified@.take(i as int) =~= verified@);
    let mut out = text::cat3(
        "<details>\n<summary><strong>Verified (",
        &number(verified.len()),
        ")</strong></summary>\n\n",
    );
    out.append(
        "> Endpoints with at least one matching consumer call. Types were resolved and compared by the TypeScript compiler pass.\n\n",
    );
    out.append("| Method | Path |\n| :--- | :--- |\n");
    out.append(&rows);
    out.append("\n</details>");
    out
}

/// The banner on GraphQL that could not be indexed; nothing where there is no
/// GraphQL library or where operations were indexed.
pub open spec fn graphql_banner_spec(libraries: Seq<Seq<char>>, indexed: bool) -> Seq<char> {
    if libraries.len() == 0 || indexed {
        ""@
    } else {
        "> [!NOTE]\n> **GraphQL detected** ("@ + text::join_spec(
            sorting::distinct_texts(libraries).map_values(|l: Seq<char>| "`"@ + l + "`"@),
            ", "@,
        )
            + "), but no schema or operation documents were found. Carrick extracts GraphQL contracts from SDL (`.graphql`/`.gql` files, `gql` template literals). If your schema is code-first (Pothos, TypeGraphQL, Nexus), commit the emitted `schema.graphql` to index it. Relay compiled artifacts and persisted queries are out of scope.\n\n"@
    }
}

fn copy_texts(v: &Vec<String>) -> (r: Vec<String>)
    ensures
        r.deep_view() == v.deep_view(),
{
    let mut out: Vec<String> = Vec::new();
    let ghost all = v.deep_view();
    let mut i: usize = 0;
    assert(out.deep_view() =~= all.take(0));
    while i < v.len()
        invariant
            i <= v@.len(),
            all == v.deep_view(),
            out.deep_view() == all.take(i as int),
        decreases v@.len() - i,
    {
        text::push_deep(&mut out, v[i].clone());
        i += 1;
        assert(out.deep_view() =~= all.take(i as int));
    }
    assert(all.take(i as int) =~= all);
    out
}

fn format_graphql_banner(libraries: &Vec<String>, indexed: bool) -> (r: String)
    ensures
        r@ == graphql_banner_spec(libraries.deep_view(), indexed),
{
    if libraries.len() == 0 || indexed {
        return text::owned("");
    }
    let sorted = sorting::sort_distinct(copy_texts(libraries));
    let ghost all = sorted.deep_view();
    let ghost target = all.map_values(|l: Seq<char>| "`"@ + l + "`"@);
    let mut quoted: Vec<String> = Vec::new();
    let mut i: usize = 0;
    assert(quoted.deep_view() =~= target.take(0));
    while i < sorted.len()
        invariant
            i <= sorted@.len(),
            all == sorted.deep_view(),
            target == all.map_values(|l: Seq<char>| "`"@ + l + "`"@),
            quoted.deep_view() == target.take(i as int),
        decreases sorted@.len() - i,
    {
        assert(all[i as int] == sorted@[i as int]@);
        text::push_deep(&mut quoted, text::cat3("`", &sorted[i], "`"));
        i += 1;
        assert(quoted.deep_view() =~= target.take(i as int));
    }
    assert(target.take(i as int) =~= target);
    text::cat3(
        "> [!NOTE]\n> **GraphQL detected** (",
        &text::join(&quoted, ", "),
        "), but no schema or operation documents were found. Carrick extracts GraphQL contracts from SDL (`.graphql`/`.gql` files, `gql` template literals). If your schema is code-first (Pothos, TypeGraphQL, Nexus), commit the emitted `schema.graphql` to index it. Relay compiled artifacts and persisted queries are out of scope.\n\n",
    )
}

// ---------------------------------------------------------------------------
// The report
// ---------------------------------------------------------------------------

/// How many issues count in the headline: the risks, the connectivity gaps
/// where there is something to match across, and the major conflicts.
pub open spec fn issue_count(findings: Seq<Finding>, has_baseline: bool) -> nat {
    risks_of(findings).len() + (if has_baseline {
        missing_of(findings).len() + orphaned_of(findings).len()
    } else {
        0
    }) + major_of(findings).len()
}

/// One phrase where the condition holds, none where it does not.
pub open spec fn phrase_if(condition: bool, phrase: Seq<char>) -> Seq<Seq<char>> {
    if condition {
        seq![phrase]
    } else {
        Seq::empty()
    }
}

/// The phrases of the verdict.
pub open spec fn verdict_phrases(
    risks: nat,
    connectivity: nat,
    dependencies: nat,
    configuration: nat,
    has_baseline: bool,
) -> Seq<Seq<char>> {
    phrase_if(
        risks > 0,
        "**"@ + text::decimal(risks) + " contract risk"@ + plural_spec(risks) + "**"@,
    ) + phrase_if(
        connectivity > 0,
        text::decimal(connectivity) + " "@ + (if has_baseline {
            "connectivity gap"@
        } else {
            "connectivity observation"@
        }) + plural_spec(connectivity),
    ) + phrase_if(
        dependencies > 0,
        text::decimal(dependencies) + " dependency conflict"@ + plural_spec(dependencies),
    ) + phrase_if(
        configuration > 0,
        text::decimal(configuration) + " configuration suggestion"@ + plural_spec(configuration),
    )
}

/// The alert that opens the report: its kind by severity, the counts, the
/// scope.
pub open spec fn verdict_spec(
    risks: nat,
    connectivity: nat,
    dependencies: nat,
    configuration: nat,
    total: nat,
    topology: Topology,
) -> Seq<char> {
    let has_baseline = baseline(topology);
    let kind = if risks > 0 {
        "CAUTION"@
    } else if total > 0 {
        "WARNING"@
    } else {
        "NOTE"@
    };
    let phrases = verdict_phrases(risks, connectivity, dependencies, configuration, has_baseline);
    let summary = if phrases.len() == 0 {
        "Nothing to flag"@
    } else {
        join_human_spec(phrases)
    };
    "> [!"@ + kind + "]\n> "@ + summary + " across "@ + scope_spec(topology) + "."@ + (
    if !has_baseline && connectivity > 0 {
        " First repo indexed, so connectivity findings are informational."@
    } else {
        ""@
    })
}

fn push_phrase(parts: &mut Vec<String>, condition: bool, phrase: String)
    ensures
        final(parts).deep_view() == old(parts).deep_view() + phrase_if(condition, phrase@),
{
    let ghost before = parts.deep_view();
    if condition {
        text::push_deep(parts, phrase);
    }
    assert(parts.deep_view() =~= before + phrase_if(condition, phrase@));
}

/// Renders the alert that opens the report, from the counts.
pub fn format_verdict(
    risks: usize,
    connectivity: usize,
    dependencies: usize,
    configuration: usize,
    total: usize,
    topology: &Topology,
) -> (r: String)
    requires
        topology.peer_repo_count < usize::MAX,
    ensures
        r@ == verdict_spec(
            risks as nat,
            connectivity as nat,
            dependencies as nat,
            configuration as nat,
            total as nat,
            *topology,
        ),
{
    let has_baseline = topology.has_baseline();
    let kind = if risks > 0 {
        "CAUTION"
    } else if total > 0 {
        "WARNING"
    } else {
        "NOTE"
    };
    let mut parts: Vec<String> = Vec::new();
    assert(parts.deep_view() =~= Seq::empty());
    push_phrase(
        &mut parts,
        risks > 0,
        text::cat5("**", &number(risks), " contract risk", plural(risks), "**"),
    );
    let noun = if has_baseline {
        "connectivity gap"
    } else {
        "connectivity observation"
    };
    push_phrase(
        &mut parts,
        connectivity > 0,
        text::cat4(&number(connectivity), " ", noun, plural(connectivity)),
    );
    push_phrase(
        &mut parts,
        dependencies > 0,
        text::cat3(&number(dependencies), " dependency conflict", plural(dependencies)),
    );
    push_phrase(
        &mut parts,
        configuration > 0,
        text::cat3(&number(configuration), " configuration suggestion", plural(configuration)),
    );
    assert(parts.deep_view() =~= verdict_phrases(
        risks as nat,
        connectivity as nat,
        dependencies as nat,
        configuration as nat,
        has_baseline,
    ));
    let summary = if parts.len() == 0 {
        text::owned("Nothing to flag")
    } else {
        join_human(&parts)
    };
    let note = if !has_baseline && connectivity > 0 {
        " First repo indexed, so connectivity findings are informational."
    } else {
        ""
    };
    let mut out = text::cat7(
        "> [!",
        kind,
        "]\n> ",
        &summary,
        " across ",
        &topology.scope_phrase(),
        ".",
    );
    out.append(note);
    out
}

/// A section with a blank line behind it; nothing where it is left out.
pub open spec fn section_if(condition: bool, section: Seq<char>) -> Seq<char> {
    if condition {
        section + "\n\n"@
    } else {
        ""@
    }
}

/// How much was indexed.
pub open spec fn indexed_spec(endpoints: nat, calls: nat) -> Seq<char> {
    "Indexed **"@ + text::decimal(endpoints) + " endpoints** and **"@ + text::decimal(calls)
        + " cross-service calls**.\n\n"@
}

fn format_indexed(endpoints: usize, calls: usize) -> (r: String)
    ensures
        r@ == indexed_spec(endpoints as nat, calls as nat),
{
    text::cat5(
        "Indexed **",
        &number(endpoints),
        " endpoints** and **",
        &number(calls),
        " cross-service calls**.\n\n",
    )
}

/// The header of the report.
pub open spec fn header_spec(topology: Topology) -> Seq<char> {
    "## 🪢 Carrick"@ + header_suffix_spec(topology) + "\n\n"@
}

/// The report without findings, between its markers.
pub open spec fn clean_body(
    result: ApiAnalysisResult,
    topology: Topology,
    delta: Option<PrDelta>,
) -> Seq<char> {
    "<!-- CARRICK_ISSUE_COUNT:0 -->\n"@ + header_spec(topology) + (
    "> [!TIP]\n> All cross-service calls match the indexed contracts across "@ + scope_spec(topology)
        + ".\n\n"@) + pr_delta_spec(delta, Seq::empty()) + indexed_spec(
        result.endpoints@.len(),
        result.calls@.len(),
    ) + graphql_banner_spec(
        result.detected_graphql_libraries.deep_view(),
        result.graphql_operations_indexed,
    ) + section_if(
        result.verified_endpoints@.len() > 0,
        verified_spec(result.verified_endpoints@),
    )
}

/// The report on findings, between its markers.
pub open spec fn findings_body(
    result: ApiAnalysisResult,
    topology: Topology,
    delta: Option<PrDelta>,
) -> Seq<char> {
    let findings = result.findings@;
    let risks = risks_of(findings);
    let missing = missing_of(findings);
    let orphaned = orphaned_of(findings);
    let major = major_of(findings);
    let advisory = advisory_of(findings);
    let groups = groups_of(env_calls_of(findings));
    let total = issue_count(findings, baseline(topology));
    "<!-- CARRICK_ISSUE_COUNT:"@ + text::decimal(total) + " -->\n"@ + header_spec(topology) + verdict_spec(
        risks.len(),
        missing.len() + orphaned.len(),
        major.len() + advisory.len(),
        groups.len(),
        total,
        topology,
    ) + "\n\n"@ + pr_delta_spec(delta, missing) + indexed_spec(
        result.endpoints@.len(),
        result.calls@.len(),
    ) + graphql_banner_spec(
        result.detected_graphql_libraries.deep_view(),
        result.graphql_operations_indexed,
    ) + section_if(risks.len() > 0, critical_spec(risks)) + section_if(
        missing.len() + orphaned.len() > 0,
        connectivity_spec(missing, orphaned, baseline(topology)),
    ) + section_if(major.len() + advisory.len() > 0, dependency_spec(major, advisory)) + section_if(
        groups.len() > 0,
        configuration_spec(groups),
    ) + section_if(
        result.verified_endpoints@.len() > 0,
        verified_spec(result.verified_endpoints@),
    )
}

/// The report of an analysis.
pub open spec fn report(
    result: ApiAnalysisResult,
    topology: Topology,
    delta: Option<PrDelta>,
) -> Seq<char> {
    "<!-- CARRICK_OUTPUT_START -->\n"@ + (if result.findings@.len() == 0 {
        clean_body(result, topology, delta)
    } else {
        findings_body(result, topology, delta)
    }) + "<!-- CARRICK_OUTPUT_END -->\n"@
}

fn add_section(out: &mut String, condition: bool, section: &str)
    ensures
        final(out)@ == old(out)@ + section_if(condition, section@),
{
    let ghost before = out@;
    if condition {
        out.append(section);
        out.append("\n\n");
    } else {
        out.append("");
    }
    assert(out@ =~= before + section_if(condition, section@));
}

fn format_header(topology: &Topology) -> (r: String)
    ensures
        r@ == header_spec(*topology),
{
    text::cat3("## 🪢 Carrick", &topology.header_suffix(), "\n\n")
}

fn format_no_issues(
    result: &ApiAnalysisResult,
    topology: &Topology,
    pr_delta: Option<&PrDelta>,
) -> (r: String)
    requires
        topology.peer_repo_count < usize::MAX,
    ensures
        r@ == clean_body(*result, *topology, delta_of(pr_delta)),
{
    let none: Vec<&Finding> = Vec::new();
    assert(none@.unref() =~= Seq::empty());
    let mut out = text::owned("<!-- CARRICK_ISSUE_COUNT:0 -->\n");
    out.append(&format_header(topology));
    let tip = text::cat3(
        "> [!TIP]\n> All cross-service calls match the indexed contracts across ",
        &topology.scope_phrase(),
        ".\n\n",
    );
    out.append(&tip);
    out.append(&format_pr_delta(pr_delta, &none));
    out.append(&format_indexed(result.endpoints.len(), result.calls.len()));
    out.append(
        &format_graphql_banner(
            &result.detected_graphql_libraries,
            result.graphql_operations_indexed,
        ),
    );
    add_section(
        &mut out,
        result.verified_endpoints.len() > 0,
        &format_verified_section(&result.verified_endpoints),
    );
    out
}

proof fn lemma_of_kind(findings: Seq<Finding>, kind: spec_fn(Finding) -> bool)
    ensures
        forall|i: int|
            0 <= i < of_kind(findings, kind).len() ==> kind(#[trigger] of_kind(findings, kind)[i]),
    decreases findings.len(),
{
    if findings.len() > 0 {
        lemma_of_kind(findings.drop_last(), kind);
        let before = of_kind(findings.drop_last(), kind);
        let after = of_kind(findings, kind);
        assert forall|i: int| 0 <= i < after.len() implies kind(#[trigger] after[i]) by {
            if i < before.len() {
                assert(after[i] == before[i]);
            }
        }
    }
}

proof fn lemma_categories(c: CategorizedFindings, findings: Seq<Finding>)
    requires
        categorizes(c, findings),
    ensures
        forall|i: int| 0 <= i < c.risks@.len() ==> is_risk(*(#[trigger] c.risks@[i])),
        forall|i: int|
            0 <= i < c.major_dependencies@.len() ==> (
            #[trigger] c.major_dependencies@[i]) is DependencyConflict,
        forall|i: int|
            0 <= i < c.unparseable_dependencies@.len() ==> (
            #[trigger] c.unparseable_dependencies@[i]) is DependencyConflict,
{
    lemma_of_kind(findings, |f: Finding| is_risk(f));
    lemma_of_kind(findings, |f: Finding| is_major(f));
    lemma_of_kind(findings, |f: Finding| is_advisory(f));
    assert forall|i: int| 0 <= i < c.risks@.len() implies is_risk(*(#[trigger] c.risks@[i])) by {
        assert(risks_of(findings)[i] == *c.risks@[i]);
    }
    assert forall|i: int| 0 <= i < c.major_dependencies@.len() implies (
    #[trigger] c.major_dependencies@[i]) is DependencyConflict by {
        assert(major_of(findings)[i] == *c.major_dependencies@[i]);
    }
    assert forall|i: int| 0 <= i < c.unparseable_dependencies@.len() implies (
    #[trigger] c.unparseable_dependencies@[i]) is DependencyConflict by {
        assert(advisory_of(findings)[i] == *c.unparseable_dependencies@[i]);
    }
}

fn format_findings(
    result: &ApiAnalysisResult,
    topology: &Topology,
    pr_delta: Option<&PrDelta>,
) -> (r: String)
    requires
        topology.peer_repo_count < usize::MAX,
    ensures
        r@ == findings_body(*result, *topology, delta_of(pr_delta)),
{
    let c = categorize_findings(&result.findings);
    assert(result.findings@.len() == result.findings.len());
    proof {
        lemma_categories(c, result.findings@);
    }
    let groups = group_env_var_suggestions(&c.env_var_calls);
    let has_baseline = topology.has_baseline();
    let connectivity: usize = c.missing.len() + c.orphaned.len();
    let dependencies: usize = c.major_dependencies.len() + c.unparseable_dependencies.len();
    let counted: usize = if has_baseline { connectivity } else { 0 };
    let total: usize = c.risks.len() + counted + c.major_dependencies.len();
    let mut out = text::cat3("<!-- CARRICK_ISSUE_COUNT:", &number(total), " -->\n");
    out.append(&format_header(topology));
    let verdict = format_verdict(
        c.risks.len(),
        connectivity,
        dependencies,
        groups.len(),
        total,
        topology,
    );
    out.append(&verdict);
    out.append("\n\n");
    out.append(&format_pr_delta(pr_delta, &c.missing));
    out.append(&format_indexed(result.endpoints.len(), result.calls.len()));
    out.append(
        &format_graphql_banner(
            &result.detected_graphql_libraries,
            result.graphql_operations_indexed,
        ),
    );
    add_section(&mut out, c.risks.len() > 0, &format_critical_section(&c.risks));
    add_section(
        &mut out,
        connectivity > 0,
        &format_connectivity_section(&c.missing, &c.orphaned, has_baseline),
    );
    add_section(
        &mut out,
        dependencies > 0,
        &format_dependency_section(&c.major_dependencies, &c.unparseable_dependencies),
    );
    add_section(&mut out, groups.len() > 0, &format_configuration_section(&groups));
    add_section(
        &mut out,
        result.verified_endpoints.len() > 0,
        &format_verified_section(&result.verified_endpoints),
    );
    out
}

/// Renders the report of an analysis.
pub fn format_analysis_results(
    result: ApiAnalysisResult,
    topology: &Topology,
    pr_delta: Option<&PrDelta>,
) -> (r: String)
    requires
        topology.peer_repo_count < usize::MAX,
    ensures
        r@ == report(result, *topology, delta_of(pr_delta)),
{
    let body = if result.findings.len() == 0 {
        format_no_issues(&result, topology, pr_delta)
    } else {
        format_findings(&result, topology, pr_delta)
    };
    text::cat3("<!-- CARRICK_OUTPUT_START -->\n", &body, "<!-- CARRICK_OUTPUT_END -->\n")
}

/// A rendered report.
pub struct FormattedOutput {
    pub content: String,
}

impl FormattedOutput {
    /// Renders the report of an analysis.
    pub fn new(
        result: ApiAnalysisResult,
        topology: Topology,
        pr_delta: Option<PrDelta>,
    ) -> (r: Self)
        requires
            topology.peer_repo_count < usize::MAX,
        ensures
            r.content@ == report(result, topology, pr_delta),
    {
        let delta = match &pr_delta {
            Some(d) => Some(d),
            None => None,
        };
        FormattedOutput { content: format_analysis_results(result, &topology, delta) }
    }
}

// ---------------------------------------------------------------------------
// Laws
// ---------------------------------------------------------------------------

proof fn lemma_one_line_lacks(s: Seq<char>, c: char)
    requires
        c == '\r' || c == '\n' || (c != ' ' && !s.contains(c)),
    ensures
        !one_line(s).contains(c),
{
    reveal_strlit(" ");
    reveal_strlit("\r\n");
    let a = text::replace_text_from(s, "\r\n"@, " "@, 0);
    let b = text::replace_char_spec(a, '\r', " "@);
    assert(!" "@.contains(c));
    if c == '\r' {
        text::lemma_replace_char_lacks(a, '\r', " "@, c);
        text::lemma_replace_char_lacks(b, '\n', " "@, c);
    } else if c == '\n' {
        text::lemma_replace_char_lacks(b, '\n', " "@, c);
    } else {
        text::lemma_replace_text_lacks(s, "\r\n"@, " "@, 0, c);
        text::lemma_replace_char_lacks(a, '\r', " "@, c);
        text::lemma_replace_char_lacks(b, '\n', " "@, c);
    }
}

/// A table cell stays on its row: it holds no line break.
pub proof fn law_cell_on_one_line(value: Seq<char>)
    ensures
        !cell_spec(value).contains('\n'),
        !cell_spec(value).contains('\r'),
{
    let escaped = text::replace_char_spec(value, '|', "\\|"@);
    lemma_one_line_lacks(escaped, '\n');
    lemma_one_line_lacks(escaped, '\r');
    text::lemma_trim_lacks(one_line(escaped), '\n');
    text::lemma_trim_lacks(one_line(escaped), '\r');
}

/// A value in inline code cannot end the code: it holds no backtick, and no
/// line break.
pub proof fn law_inline_code_is_closed(value: Seq<char>)
    ensures
        !code_cell_spec(value).contains('`'),
        !code_cell_spec(value).contains('\n'),
        !code_cell_spec(value).contains('\r'),
        !code_span_spec(value).contains('`'),
        !code_span_spec(value).contains('\n'),
        !code_span_spec(value).contains('\r'),
{
    reveal_strlit("");
    law_cell_on_one_line(value);
    text::lemma_replace_char_lacks(cell_spec(value), '`', ""@, '`');
    text::lemma_replace_char_lacks(cell_spec(value), '`', ""@, '\n');
    text::lemma_replace_char_lacks(cell_spec(value), '`', ""@, '\r');
    let line = one_line(value);
    lemma_one_line_lacks(value, '\n');
    lemma_one_line_lacks(value, '\r');
    text::lemma_replace_char_lacks(line, '`', ""@, '`');
    text::lemma_replace_char_lacks(line, '`', ""@, '\n');
    text::lemma_replace_char_lacks(line, '`', ""@, '\r');
    let bare = text::replace_char_spec(line, '`', ""@);
    text::lemma_trim_lacks(bare, '`');
    text::lemma_trim_lacks(bare, '\n');
    text::lemma_trim_lacks(bare, '\r');
}

/// Whether every pipe has a backslash before it.
pub open spec fn pipes_escaped(s: Seq<char>) -> bool {
    forall|i: int| 0 <= i < s.len() && #[trigger] s[i] == '|' ==> i > 0 && s[i - 1] == '\\'
}

proof fn lemma_escape_pipes(s: Seq<char>)
    ensures
        pipes_escaped(text::replace_char_spec(s, '|', "\\|"@)),
    decreases s.len(),
{
    reveal_strlit("\\|");
    if s.len() > 0 {
        lemma_escape_pipes(s.drop_last());
        let before = text::replace_char_spec(s.drop_last(), '|', "\\|"@);
        let after = text::replace_char_spec(s, '|', "\\|"@);
        assert forall|i: int| 0 <= i < after.len() && #[trigger] after[i] == '|' implies i > 0
            && after[i - 1] == '\\' by {
            if i < before.len() {
                assert(before[i] == '|');
                assert(after[i - 1] == before[i - 1]);
            } else if s.last() == '|' {
                assert(after[i] == "\\|"@[i - before.len()]);
                assert(i == before.len() + 1);
                assert(after[i - 1] == "\\|"@[0]);
            }
        }
    }
}

proof fn lemma_crlf_keeps_escapes(s: Seq<char>, at: int)
    requires
        pipes_escaped(s),
        0 <= at,
    ensures
        ({
            let r = text::replace_text_from(s, "\r\n"@, " "@, at);
            forall|i: int|
                0 <= i < r.len() && #[trigger] r[i] == '|' ==> if i == 0 {
                    0 < at <= s.len() && s[at - 1] == '\\'
                } else {
                    r[i - 1] == '\\'
                }
        }),
    decreases s.len() - at,
{
    reveal_strlit("\r\n");
    reveal_strlit(" ");
    let r = text::replace_text_from(s, "\r\n"@, " "@, at);
    if at < s.len() {
        if text::stands_at(s, "\r\n"@, at) {
            lemma_crlf_keeps_escapes(s, at + 2);
            let rest = text::replace_text_from(s, "\r\n"@, " "@, at + 2);
            assert(s.subrange(at, at + 2)[1] == '\n');
            assert(s[at + 1] == '\n');
            assert forall|i: int| 0 <= i < r.len() && #[trigger] r[i] == '|' implies if i == 0 {
                0 < at <= s.len() && s[at - 1] == '\\'
            } else {
                r[i - 1] == '\\'
            } by {
                if i > 0 {
                    assert(r[i] == rest[i - 1]);
                    if i > 1 {
                        assert(r[i - 1] == rest[i - 2]);
                    }
                }
            }
        } else {
            lemma_crlf_keeps_escapes(s, at + 1);
            let rest = text::replace_text_from(s, "\r\n"@, " "@, at + 1);
            assert forall|i: int| 0 <= i < r.len() && #[trigger] r[i] == '|' implies if i == 0 {
                0 < at <= s.len() && s[at - 1] == '\\'
            } else {
                r[i - 1] == '\\'
            } by {
                if i == 0 {
                    assert(s[at] == '|');
                } else {
                    assert(r[i] == rest[i - 1]);
                    if i > 1 {
                        assert(r[i - 1] == rest[i - 2]);
                    } else {
                        assert(r[0] == s[at]);
                    }
                }
            }
        }
    }
}

proof fn lemma_blank_for_char(s: Seq<char>, c: char)
    ensures
        text::replace_char_spec(s, c, " "@).len() == s.len(),
        forall|i: int|
            0 <= i < s.len() ==> #[trigger] text::replace_char_spec(s, c, " "@)[i] == if s[i] == c {
                ' '
            } else {
                s[i]
            },
    decreases s.len(),
{
    reveal_strlit(" ");
    if s.len() > 0 {
        lemma_blank_for_char(s.drop_last(), c);
        let before = text::replace_char_spec(s.drop_last(), c, " "@);
        let after = text::replace_char_spec(s, c, " "@);
        assert forall|i: int| 0 <= i < s.len() implies #[trigger] after[i] == if s[i] == c {
            ' '
        } else {
            s[i]
        } by {
            if i < before.len() {
                assert(after[i] == before[i]);
                assert(s.drop_last()[i] == s[i]);
            }
        }
    }
}

proof fn lemma_blank_keeps_escapes(s: Seq<char>, c: char)
    requires
        pipes_escaped(s),
        c != '\\',
    ensures
        pipes_escaped(text::replace_char_spec(s, c, " "@)),
{
    lemma_blank_for_char(s, c);
    let r = text::replace_char_spec(s, c, " "@);
    assert forall|i: int| 0 <= i < r.len() && #[trigger] r[i] == '|' implies i > 0 && r[i - 1]
        == '\\' by {
        assert(s[i] == '|');
        assert(s[i - 1] == '\\');
    }
}

proof fn lemma_trim_start_keeps_escapes(s: Seq<char>)
    requires
        pipes_escaped(s),
    ensures
        pipes_escaped(text::trim_start_spec(s)),
    decreases s.len(),
{
    if s.len() > 0 && text::is_white_space(s[0]) {
        let t = s.skip(1);
        assert forall|i: int| 0 <= i < t.len() && #[trigger] t[i] == '|' implies i > 0 && t[i - 1]
            == '\\' by {
            assert(s[i + 1] == '|');
            assert(s[i] == '\\');
        }
        lemma_trim_start_keeps_escapes(t);
    }
}

proof fn lemma_trim_end_keeps_escapes(s: Seq<char>)
    requires
        pipes_escaped(s),
    ensures
        pipes_escaped(text::trim_end_spec(s)),
    decreases s.len(),
{
    if s.len() > 0 && text::is_white_space(s.last()) {
        let t = s.drop_last();
        assert forall|i: int| 0 <= i < t.len() && #[trigger] t[i] == '|' implies i > 0 && t[i - 1]
            == '\\' by {
            assert(s[i] == '|');
        }
        lemma_trim_end_keeps_escapes(t);
    }
}

/// A table cell does not end its column: every pipe in it has a backslash
/// before it.
pub proof fn law_cell_pipes_escaped(value: Seq<char>)
    ensures
        pipes_escaped(cell_spec(value)),
{
    let escaped = text::replace_char_spec(value, '|', "\\|"@);
    lemma_escape_pipes(value);
    lemma_crlf_keeps_escapes(escaped, 0);
    let a = text::replace_text_from(escaped, "\r\n"@, " "@, 0);
    assert(pipes_escaped(a));
    lemma_blank_keeps_escapes(a, '\r');
    let b = text::replace_char_spec(a, '\r', " "@);
    lemma_blank_keeps_escapes(b, '\n');
    lemma_trim_start_keeps_escapes(one_line(escaped));
    lemma_trim_end_keeps_escapes(text::trim_start_spec(one_line(escaped)));
}

/// The report stands between its markers.
pub proof fn law_report_between_markers(
    result: ApiAnalysisResult,
    topology: Topology,
    delta: Option<PrDelta>,
)
    ensures
        "<!-- CARRICK_OUTPUT_START -->\n"@.is_prefix_of(report(result, topology, delta)),
        "<!-- CARRICK_OUTPUT_END -->\n"@.is_suffix_of(report(result, topology, delta)),
{
    let start = "<!-- CARRICK_OUTPUT_START -->\n"@;
    let end = "<!-- CARRICK_OUTPUT_END -->\n"@;
    let body = if result.findings@.len() == 0 {
        clean_body(result, topology, delta)
    } else {
        findings_body(result, topology, delta)
    };
    lemma_between(start, body, end);
}

proof fn lemma_between(start: Seq<char>, body: Seq<char>, end: Seq<char>)
    ensures
        start.is_prefix_of(start + body + end),
        end.is_suffix_of(start + body + end),
{
    let r = start + body + end;
    assert(start =~= r.subrange(0, start.len() as int));
    assert(end =~= r.subrange(r.len() - end.len(), r.len() as int));
}

/// Without something to match across, connectivity does not count, and advice
/// never does: a lone repository without risks and major conflicts has no
/// issue.
pub proof fn law_headline_count(findings: Seq<Finding>)
    requires
        risks_of(findings).len() == 0,
        major_of(findings).len() == 0,
    ensures
        issue_count(findings, false) == 0,
        issue_count(findings, true) == missing_of(findings).len() + orphaned_of(findings).len(),
{
}

} // verus!
