//! The machine-readable projection of a scan: operations with their types,
//! matched edges and dependency conflicts.

use vstd::prelude::*;

use crate::analyzer::{ApiAnalysisResult, ConflictSeverity, DependencyConflict, MatchedEdge};
use crate::cloud_storage::{
    ApiEndpointDetails, ManifestRole, ManifestTypeKind, ManifestTypeState, TypeManifestEntry,
    TypeReference,
};
use crate::operation::OperationKey;
use crate::sorting::{Keyed, SortKey};
use crate::{operation, sorting, text};

verus! {

/// One extracted operation.
#[derive(Debug)]
pub struct EvalOp {
    /// The text form of the operation's key.
    pub key: String,
    pub protocol: String,
    pub method: Option<String>,
    pub path: Option<String>,
    pub handler: Option<String>,
    pub request_type: Option<String>,
    pub response_type: Option<String>,
    pub file: String,
    pub line: u32,
    pub type_alias: Option<String>,
    pub type_state: Option<String>,
    pub resolved_definition: Option<String>,
    pub expanded_definition: Option<String>,
    pub is_explicit: Option<bool>,
    /// The symbol that the manifest names; there is no fallback to the alias.
    pub primary_type_symbol: Option<String>,
}

/// The model of an [`EvalOp`].
pub struct EvalOpModel {
    pub key: Seq<char>,
    pub protocol: Seq<char>,
    pub method: Option<Seq<char>>,
    pub path: Option<Seq<char>>,
    pub handler: Option<Seq<char>>,
    pub request_type: Option<Seq<char>>,
    pub response_type: Option<Seq<char>>,
    pub file: Seq<char>,
    pub line: u32,
    pub type_alias: Option<Seq<char>>,
    pub type_state: Option<Seq<char>>,
    pub resolved_definition: Option<Seq<char>>,
    pub expanded_definition: Option<Seq<char>>,
    pub is_explicit: Option<bool>,
    pub primary_type_symbol: Option<Seq<char>>,
}

impl DeepView for EvalOp {
    type V = EvalOpModel;

    open spec fn deep_view(&self) -> EvalOpModel {
        EvalOpModel {
            key: self.key@,
            protocol: self.protocol@,
            method: self.method.deep_view(),
            path: self.path.deep_view(),
            handler: self.handler.deep_view(),
            request_type: self.request_type.deep_view(),
            response_type: self.response_type.deep_view(),
            file: self.file@,
            line: self.line,
            type_alias: self.type_alias.deep_view(),
            type_state: self.type_state.deep_view(),
            resolved_definition: self.resolved_definition.deep_view(),
            expanded_definition: self.expanded_definition.deep_view(),
            is_explicit: self.is_explicit,
            primary_type_symbol: self.primary_type_symbol.deep_view(),
        }
    }
}

/// An edge from a producer to a consumer.
#[derive(Debug)]
pub struct CrossRepoMatch {
    pub producer_repo: String,
    pub producer_key: String,
    pub consumer_repo: String,
    pub consumer_key: String,
    /// The score's floating-point representation, bit for bit.
    pub match_score_bits: u64,
    /// `None` where the types were not compared.
    pub type_compatible: Option<bool>,
    pub mismatch_reason: Option<String>,
}

/// The model of a [`CrossRepoMatch`].
pub struct MatchModel {
    pub producer_repo: Seq<char>,
    pub producer_key: Seq<char>,
    pub consumer_repo: Seq<char>,
    pub consumer_key: Seq<char>,
    pub match_score_bits: u64,
    pub type_compatible: Option<bool>,
    pub mismatch_reason: Option<Seq<char>>,
}

impl DeepView for CrossRepoMatch {
    type V = MatchModel;

    open spec fn deep_view(&self) -> MatchModel {
        MatchModel {
            producer_repo: self.producer_repo@,
            producer_key: self.producer_key@,
            consumer_repo: self.consumer_repo@,
            consumer_key: self.consumer_key@,
            match_score_bits: self.match_score_bits,
            type_compatible: self.type_compatible,
            mismatch_reason: self.mismatch_reason.deep_view(),
        }
    }
}

impl Keyed for MatchModel {
    open spec fn sort_key(&self) -> Seq<Seq<char>> {
        seq![self.producer_repo, self.producer_key, self.consumer_repo, self.consumer_key]
    }
}

impl Keyed for CrossRepoMatch {
    open spec fn sort_key(&self) -> Seq<Seq<char>> {
        seq![self.producer_repo@, self.producer_key@, self.consumer_repo@, self.consumer_key@]
    }
}

impl SortKey for CrossRepoMatch {
    fn key_at_most(&self, other: &Self) -> (r: bool) {
        assert(self.sort_key().skip(1) =~= seq![
            self.producer_key@,
            self.consumer_repo@,
            self.consumer_key@,
        ]);
        assert(other.sort_key().skip(1) =~= seq![
            other.producer_key@,
            other.consumer_repo@,
            other.consumer_key@,
        ]);
        if text::same_text(&self.producer_repo, &other.producer_repo) {
            sorting::three_texts_at_most(
                &self.producer_key,
                &self.consumer_repo,
                &self.consumer_key,
                &other.producer_key,
                &other.consumer_repo,
                &other.consumer_key,
            )
        } else {
            text::text_at_most(&self.producer_repo, &other.producer_repo)
        }
    }
}

/// A dependency that repositories use at different versions.
#[derive(Debug)]
pub struct EvalDependencyConflict {
    pub package: String,
    /// In order, each once.
    pub versions: Vec<String>,
    pub severity: String,
}

/// The model of an [`EvalDependencyConflict`].
pub struct ConflictModel {
    pub package: Seq<char>,
    pub versions: Seq<Seq<char>>,
    pub severity: Seq<char>,
}

impl DeepView for EvalDependencyConflict {
    type V = ConflictModel;

    open spec fn deep_view(&self) -> ConflictModel {
        ConflictModel {
            package: self.package@,
            versions: self.versions.deep_view(),
            severity: self.severity@,
        }
    }
}

impl Keyed for ConflictModel {
    open spec fn sort_key(&self) -> Seq<Seq<char>> {
        seq![self.package]
    }
}

impl Keyed for EvalDependencyConflict {
    open spec fn sort_key(&self) -> Seq<Seq<char>> {
        seq![self.package@]
    }
}

impl SortKey for EvalDependencyConflict {
    fn key_at_most(&self, other: &Self) -> (r: bool) {
        sorting::one_text_at_most(&self.package, &other.package)
    }
}

/// The projection of a scan.
#[derive(Debug)]
pub struct EvalProjection {
    pub endpoints: Vec<EvalOp>,
    pub calls: Vec<EvalOp>,
    pub cross_repo_matches: Vec<CrossRepoMatch>,
    pub dependency_conflicts: Vec<EvalDependencyConflict>,
}

// ---------------------------------------------------------------------------
// Locations and keys
// ---------------------------------------------------------------------------

/// Whether one path is the end of the other, cut at a separator of either
/// style.
pub open spec fn aligned_suffix(long: Seq<char>, short: Seq<char>) -> bool {
    &&& short.is_suffix_of(long)
    &&& short.len() < long.len()
    &&& (long[long.len() - short.len() - 1] == '/' || long[long.len() - short.len() - 1] == '\\')
}

/// Whether two paths name the same file: equal, or one the end of the other.
/// An empty path names none.
pub open spec fn same_file(a: Seq<char>, b: Seq<char>) -> bool {
    a.len() > 0 && b.len() > 0 && (a == b || aligned_suffix(a, b) || aligned_suffix(b, a))
}

fn is_aligned_suffix(long: &str, short: &str) -> (r: bool)
    ensures
        r == aligned_suffix(long@, short@),
{
    let v = text::chars_of(long);
    let n: usize = text::chars_of(short).len();
    if n >= v.len() || !text::ends_with(long, short) {
        return false;
    }
    v[v.len() - n - 1] == '/' || v[v.len() - n - 1] == '\\'
}

/// Whether two source paths name the same file, across relative and absolute
/// forms.
pub fn same_source_file(a: &str, b: &str) -> (r: bool)
    ensures
        r == same_file(a@, b@),
{
    if a.is_empty() || b.is_empty() {
        return false;
    }
    text::same_text(a, b) || is_aligned_suffix(a, b) || is_aligned_suffix(b, a)
}

/// Naming the same file does not depend on which path comes first.
pub proof fn law_same_file_symmetric(a: Seq<char>, b: Seq<char>)
    ensures
        same_file(a, b) == same_file(b, a),
        a.len() > 0 ==> same_file(a, a),
{
}

/// Whether a text is a run of digits.
pub open spec fn all_digits(s: Seq<char>) -> bool {
    s.len() > 0 && forall|i: int| 0 <= i < s.len() ==> '0' <= #[trigger] s[i] && s[i] <= '9'
}

fn is_all_digits(s: &str) -> (r: bool)
    ensures
        r == all_digits(s@),
{
    let v = text::chars_of(s);
    if v.len() == 0 {
        return false;
    }
    let mut i: usize = 0;
    while i < v.len()
        invariant
            i <= v@.len(),
            v@ == s@,
            forall|k: int| 0 <= k < i ==> '0' <= #[trigger] v@[k] && v@[k] <= '9',
        decreases v@.len() - i,
    {
        if !('0' <= v[i] && v[i] <= '9') {
            assert(!('0' <= s@[i as int] && s@[i as int] <= '9'));
            return false;
        }
        i += 1;
    }
    true
}

/// The file and the line of a `file:line`. Without digits behind the last colon
/// all of it is the file, and the line is zero; a line that is too large is
/// zero too.
pub open spec fn location_spec(location: Seq<char>) -> (Seq<char>, u32) {
    match text::rsplit_once_spec(location, ':') {
        Some((file, line)) => if all_digits(line) {
            match text::parse_unsigned_spec(line, u32::MAX as u64) {
                Some(n) => (file, n as u32),
                None => (file, 0),
            }
        } else {
            (location, 0)
        },
        None => (location, 0),
    }
}

/// The file and the line of a `file:line`.
pub fn split_location(location: &str) -> (r: (String, u32))
    ensures
        (r.0@, r.1) == location_spec(location@),
{
    match text::rsplit_once(location, ':') {
        Some((file, line)) => {
            if is_all_digits(&line) {
                match text::parse_unsigned(&line, u32::MAX as u64) {
                    Some(n) => (file, n as u32),
                    None => (file, 0),
                }
            } else {
                (text::owned(location), 0)
            }
        },
        None => (text::owned(location), 0),
    }
}

/// The protocol, the method and the path or name of a key.
pub open spec fn projected_key(key: operation::KeyModel) -> (
    Seq<char>,
    Option<Seq<char>>,
    Option<Seq<char>>,
) {
    match key {
        operation::KeyModel::Http { method, path } => ("http"@, Some(method), Some(path)),
        operation::KeyModel::Graphql { field, .. } => ("graphql"@, None, Some(field)),
        operation::KeyModel::Socket { event, .. } => ("socket"@, None, Some(event)),
        operation::KeyModel::Pubsub { topic } => ("pubsub"@, None, Some(topic)),
    }
}

/// The protocol, the method and the path or name of a key.
pub fn project_key(key: &OperationKey) -> (r: (String, Option<String>, Option<String>))
    ensures
        (r.0@, r.1.deep_view(), r.2.deep_view()) == projected_key(key@),
{
    match key {
        OperationKey::Http { method, path } => (
            text::owned("http"),
            Some(method.clone()),
            Some(path.clone()),
        ),
        OperationKey::Graphql { field, .. } => (
            text::owned("graphql"),
            None,
            Some(field.clone()),
        ),
        OperationKey::Socket { event, .. } => (text::owned("socket"), None, Some(event.clone())),
        OperationKey::Pubsub { topic } => (text::owned("pubsub"), None, Some(topic.clone())),
    }
}

/// The name of a type state.
pub open spec fn state_name(state: ManifestTypeState) -> Seq<char> {
    match state {
        ManifestTypeState::Explicit => "Explicit"@,
        ManifestTypeState::Implicit => "Implicit"@,
        ManifestTypeState::Unknown => "Unknown"@,
    }
}

/// The name of a type state.
pub fn manifest_type_state_string(state: ManifestTypeState) -> (r: String)
    ensures
        r@ == state_name(state),
{
    match state {
        ManifestTypeState::Explicit => text::owned("Explicit"),
        ManifestTypeState::Implicit => text::owned("Implicit"),
        ManifestTypeState::Unknown => text::owned("Unknown"),
    }
}

/// The name of a severity.
pub open spec fn severity_name(severity: ConflictSeverity) -> Seq<char> {
    match severity {
        ConflictSeverity::Critical => "critical"@,
        ConflictSeverity::Warning => "warning"@,
        ConflictSeverity::Info => "info"@,
    }
}

/// The name of a severity.
pub fn conflict_severity_string(severity: &ConflictSeverity) -> (r: String)
    ensures
        r@ == severity_name(*severity),
{
    match severity {
        ConflictSeverity::Critical => text::owned("critical"),
        ConflictSeverity::Warning => text::owned("warning"),
        ConflictSeverity::Info => text::owned("info"),
    }
}

// ---------------------------------------------------------------------------
// Joining the manifest
// ---------------------------------------------------------------------------

/// Whether an entry belongs to an operation and a role.
pub open spec fn in_slot(e: TypeManifestEntry, key: Seq<char>, role: ManifestRole) -> bool {
    operation::canonical_spec(e.key@) == key && e.role == role
}

/// Whether some entry of the operation stands in the file.
pub open spec fn any_in_file(
    entries: Seq<TypeManifestEntry>,
    key: Seq<char>,
    role: ManifestRole,
    file: Seq<char>,
) -> bool {
    exists|i: int|
        0 <= i < entries.len() && in_slot(#[trigger] entries[i], key, role) && same_file(
            entries[i].file_path@,
            file,
        )
}

/// Where an operation's entry is looked for: in its own slot, and in its own
/// file where the slot has entries there.
pub struct SiteModel {
    pub key: Seq<char>,
    pub role: ManifestRole,
    pub file: Seq<char>,
    pub restricted: bool,
}

/// The site of an operation.
pub open spec fn site_of(
    entries: Seq<TypeManifestEntry>,
    key: Seq<char>,
    role: ManifestRole,
    file: Seq<char>,
) -> SiteModel {
    SiteModel { key, role, file, restricted: any_in_file(entries, key, role, file) }
}

/// Whether an entry is at the site.
pub open spec fn at_site(e: TypeManifestEntry, site: SiteModel) -> bool {
    in_slot(e, site.key, site.role) && (site.restricted ==> same_file(e.file_path@, site.file))
}

/// Which entries of a site are asked for.
#[derive(Clone, Copy, PartialEq, Eq, Structural, Debug)]
pub enum Wanted {
    DefinedResponse,
    DefinedRequest,
    Any,
}

/// Whether an entry is of the wanted kind.
pub open spec fn is_wanted(e: TypeManifestEntry, wanted: Wanted) -> bool {
    let has_definition = e.resolved_definition is Some || e.expanded_definition is Some;
    match wanted {
        Wanted::DefinedResponse => e.type_kind == ManifestTypeKind::Response && has_definition,
        Wanted::DefinedRequest => e.type_kind == ManifestTypeKind::Request && has_definition,
        Wanted::Any => true,
    }
}

/// The distance of an entry from a line.
pub open spec fn line_distance(e: TypeManifestEntry, line: u32) -> int {
    if e.line_number >= line {
        e.line_number - line
    } else {
        line - e.line_number
    }
}

/// The wanted entry of the site that is nearest to the line, the first of
/// several.
pub open spec fn nearest(
    entries: Seq<TypeManifestEntry>,
    site: SiteModel,
    wanted: Wanted,
    line: u32,
) -> Option<TypeManifestEntry>
    decreases entries.len(),
{
    if entries.len() == 0 {
        None
    } else {
        let before = nearest(entries.drop_last(), site, wanted, line);
        let e = entries.last();
        if at_site(e, site) && is_wanted(e, wanted) {
            match before {
                Some(b) => if line_distance(e, line) < line_distance(b, line) {
                    Some(e)
                } else {
                    Some(b)
                },
                None => Some(e),
            }
        } else {
            before
        }
    }
}

/// The entry that an operation's type is read from: a defined response, else a
/// defined request, else any entry of the site; each time the nearest.
pub open spec fn chosen_entry(
    entries: Seq<TypeManifestEntry>,
    site: SiteModel,
    line: u32,
) -> Option<TypeManifestEntry> {
    match nearest(entries, site, Wanted::DefinedResponse, line) {
        Some(e) => Some(e),
        None => match nearest(entries, site, Wanted::DefinedRequest, line) {
            Some(e) => Some(e),
            None => nearest(entries, site, Wanted::Any, line),
        },
    }
}

/// The first symbol that an entry of the site has.
pub open spec fn site_symbol(entries: Seq<TypeManifestEntry>, site: SiteModel) -> Option<String>
    decreases entries.len(),
{
    if entries.len() == 0 {
        None
    } else {
        match site_symbol(entries.drop_last(), site) {
            Some(s) => Some(s),
            None => if at_site(entries.last(), site) {
                entries.last().primary_type_symbol
            } else {
                None
            },
        }
    }
}

/// The symbol of an operation: that of the chosen entry, else the first of the
/// site.
pub open spec fn joined_symbol(
    entries: Seq<TypeManifestEntry>,
    site: SiteModel,
    chosen: TypeManifestEntry,
) -> Option<Seq<char>> {
    match chosen.primary_type_symbol {
        Some(s) => Some(s@),
        None => site_symbol(entries, site).deep_view(),
    }
}

/// Where an operation's entry is looked for.
struct Site<'a> {
    key: &'a str,
    role: ManifestRole,
    file: &'a str,
    restricted: bool,
}

spec fn site_model(site: Site) -> SiteModel {
    SiteModel {
        key: site.key@,
        role: site.role,
        file: site.file@,
        restricted: site.restricted,
    }
}

fn has_in_file(entries: &Vec<TypeManifestEntry>, key: &str, role: ManifestRole, file: &str) -> (r:
    bool)
    ensures
        r == any_in_file(entries@, key@, role, file@),
{
    let mut i: usize = 0;
    while i < entries.len()
        invariant
            i <= entries@.len(),
            forall|k: int|
                0 <= k < i ==> !(in_slot(#[trigger] entries@[k], key@, role) && same_file(
                    entries@[k].file_path@,
                    file@,
                )),
        decreases entries@.len() - i,
    {
        let e = &entries[i];
        if e.role == role && text::same_text(&e.key.canonical(), key) && same_source_file(
            &e.file_path,
            file,
        ) {
            assert(in_slot(entries@[i as int], key@, role));
            return true;
        }
        i += 1;
    }
    false
}

fn stands_at_site(e: &TypeManifestEntry, site: &Site) -> (r: bool)
    ensures
        r == at_site(*e, site_model(*site)),
{
    e.role == site.role && text::same_text(&e.key.canonical(), site.key) && (!site.restricted
        || same_source_file(&e.file_path, site.file))
}

fn fits(e: &TypeManifestEntry, wanted: Wanted) -> (r: bool)
    ensures
        r == is_wanted(*e, wanted),
{
    let has_definition = e.resolved_definition.is_some() || e.expanded_definition.is_some();
    match wanted {
        Wanted::DefinedResponse => e.type_kind == ManifestTypeKind::Response && has_definition,
        Wanted::DefinedRequest => e.type_kind == ManifestTypeKind::Request && has_definition,
        Wanted::Any => true,
    }
}

fn distance(e: &TypeManifestEntry, line: u32) -> (r: u32)
    ensures
        r == line_distance(*e, line),
{
    if e.line_number >= line {
        e.line_number - line
    } else {
        line - e.line_number
    }
}

fn find_nearest<'a>(
    entries: &'a Vec<TypeManifestEntry>,
    site: &Site,
    wanted: Wanted,
    line: u32,
) -> (r: Option<&'a TypeManifestEntry>)
    ensures
        match r {
            Some(e) => nearest(entries@, site_model(*site), wanted, line) == Some(*e),
            None => nearest(entries@, site_model(*site), wanted, line) is None,
        },
{
    let mut best: Option<&'a TypeManifestEntry> = None;
    let mut i: usize = 0;
    while i < entries.len()
        invariant
            i <= entries@.len(),
            match best {
                Some(e) => nearest(entries@.take(i as int), site_model(*site), wanted, line)
                    == Some(*e),
                None => nearest(entries@.take(i as int), site_model(*site), wanted, line) is None,
            },
        decreases entries@.len() - i,
    {
        assert(entries@.take(i + 1).drop_last() =~= entries@.take(i as int));
        let e = &entries[i];
        if stands_at_site(e, site) && fits(e, wanted) {
            match best {
                Some(b) => {
                    if distance(e, line) < distance(b, line) {
                        best = Some(e);
                    }
                },
                None => {
                    best = Some(e);
                },
            }
        }
        i += 1;
    }
    assert(entries@.take(i as int) =~= entries@);
    best
}

fn find_site_symbol<'a>(entries: &'a Vec<TypeManifestEntry>, site: &Site) -> (r: Option<&'a String>)
    ensures
        match r {
            Some(s) => site_symbol(entries@, site_model(*site)) == Some(*s),
            None => site_symbol(entries@, site_model(*site)) is None,
        },
{
    let mut found: Option<&'a String> = None;
    let mut i: usize = 0;
    while i < entries.len()
        invariant
            i <= entries@.len(),
            match found {
                Some(s) => site_symbol(entries@.take(i as int), site_model(*site)) == Some(*s),
                None => site_symbol(entries@.take(i as int), site_model(*site)) is None,
            },
        decreases entries@.len() - i,
    {
        assert(entries@.take(i + 1).drop_last() =~= entries@.take(i as int));
        if found.is_none() && stands_at_site(&entries[i], site) {
            if let Some(s) = &entries[i].primary_type_symbol {
                found = Some(s);
            }
        }
        i += 1;
    }
    assert(entries@.take(i as int) =~= entries@);
    found
}

/// The written form of a type that an endpoint refers to.
pub open spec fn type_text(t: Option<TypeReference>) -> Option<Seq<char>> {
    match t {
        Some(r) => Some(r.composite_type_string@),
        None => None,
    }
}

fn copy_type_text(t: &Option<TypeReference>) -> (r: Option<String>)
    ensures
        r.deep_view() == type_text(*t),
{
    match t {
        Some(r) => Some(r.composite_type_string.clone()),
        None => None,
    }
}

/// An operation joined to its manifest entries.
pub open spec fn eval_op_spec(
    d: ApiEndpointDetails,
    entries: Seq<TypeManifestEntry>,
    role: ManifestRole,
) -> EvalOpModel {
    let key = operation::canonical_spec(d.key@);
    let at = location_spec(d.file_path@);
    let site = site_of(entries, key, role, at.0);
    let chosen = chosen_entry(entries, site, at.1);
    EvalOpModel {
        key,
        protocol: projected_key(d.key@).0,
        method: projected_key(d.key@).1,
        path: projected_key(d.key@).2,
        handler: d.handler_name.deep_view(),
        request_type: type_text(d.request_type),
        response_type: type_text(d.response_type),
        file: at.0,
        line: at.1,
        type_alias: match chosen {
            Some(e) => Some(e.type_alias@),
            None => None,
        },
        type_state: match chosen {
            Some(e) => Some(state_name(e.type_state)),
            None => None,
        },
        resolved_definition: match chosen {
            Some(e) => e.resolved_definition.deep_view(),
            None => None,
        },
        expanded_definition: match chosen {
            Some(e) => e.expanded_definition.deep_view(),
            None => None,
        },
        is_explicit: match chosen {
            Some(e) => Some(e.is_explicit),
            None => None,
        },
        primary_type_symbol: match chosen {
            Some(e) => joined_symbol(entries, site, e),
            None => None,
        },
    }
}

impl EvalOp {
    /// Projects an operation, joined to the manifest entries of its role: in
    /// its own file where there are some, the response before the request, the
    /// nearest to its line.
    pub fn from_details(
        d: &ApiEndpointDetails,
        manifest: &Vec<TypeManifestEntry>,
        role: ManifestRole,
    ) -> (r: Self)
        ensures
            r.deep_view() == eval_op_spec(*d, manifest@, role),
    {
        let (protocol, method, path) = project_key(&d.key);
        let (file, line) = split_location(&d.file_path);
        let key = d.key.canonical();
        let restricted = has_in_file(manifest, &key, role, &file);
        let site = Site { key: &key, role, file: &file, restricted };
        let mut chosen = find_nearest(manifest, &site, Wanted::DefinedResponse, line);
        if chosen.is_none() {
            chosen = find_nearest(manifest, &site, Wanted::DefinedRequest, line);
        }
        if chosen.is_none() {
            chosen = find_nearest(manifest, &site, Wanted::Any, line);
        }
        let (type_alias, type_state, resolved, expanded, is_explicit, symbol) = match chosen {
            Some(e) => {
                let symbol = match &e.primary_type_symbol {
                    Some(s) => Some(s.clone()),
                    None => match find_site_symbol(manifest, &site) {
                        Some(s) => Some(s.clone()),
                        None => None,
                    },
                };
                (
                    Some(e.type_alias.clone()),
                    Some(manifest_type_state_string(e.type_state)),
                    text::copy_opt(&e.resolved_definition),
                    text::copy_opt(&e.expanded_definition),
                    Some(e.is_explicit),
                    symbol,
                )
            },
            None => (None, None, None, None, None, None),
        };
        EvalOp {
            key: d.key.canonical(),
            protocol,
            method,
            path,
            handler: text::copy_opt(&d.handler_name),
            request_type: copy_type_text(&d.request_type),
            response_type: copy_type_text(&d.response_type),
            file: text::owned(&file),
            line,
            type_alias,
            type_state,
            resolved_definition: resolved,
            expanded_definition: expanded,
            is_explicit,
            primary_type_symbol: symbol,
        }
    }
}

// ---------------------------------------------------------------------------
// Self-loops
// ---------------------------------------------------------------------------

/// The service, else the repository, that an operation is attributed to.
pub open spec fn attribution(d: ApiEndpointDetails) -> Option<Seq<char>> {
    match d.service_name {
        Some(s) => Some(s@),
        None => d.repo_name.deep_view(),
    }
}

/// Whether an operation of a protocol other than HTTP is on the key, and
/// attributed.
pub open spec fn votes(d: ApiEndpointDetails, key: Seq<char>) -> bool {
    !(d.key@ is Http) && operation::canonical_spec(d.key@) == key && attribution(d) is Some
}

/// Whether one of the operations votes on the key.
pub open spec fn some_vote(ops: Seq<ApiEndpointDetails>, key: Seq<char>) -> bool {
    exists|i: int| 0 <= i < ops.len() && votes(#[trigger] ops[i], key)
}

/// Whether all votes on the key are for the repository.
pub open spec fn votes_only_for(
    ops: Seq<ApiEndpointDetails>,
    key: Seq<char>,
    repo: Seq<char>,
) -> bool {
    forall|i: int|
        0 <= i < ops.len() && votes(#[trigger] ops[i], key) ==> attribution(ops[i]) == Some(repo)
}

/// Whether an operation is part of a loop inside one repository: its own
/// repository produces and consumes the key, and no other touches it.
pub open spec fn is_self_loop(
    d: ApiEndpointDetails,
    endpoints: Seq<ApiEndpointDetails>,
    calls: Seq<ApiEndpointDetails>,
) -> bool {
    let key = operation::canonical_spec(d.key@);
    match attribution(d) {
        Some(repo) => {
            &&& some_vote(endpoints, key)
            &&& some_vote(calls, key)
            &&& votes_only_for(endpoints, key, repo)
            &&& votes_only_for(calls, key, repo)
        },
        None => false,
    }
}

fn attribution_of(d: &ApiEndpointDetails) -> (r: Option<&String>)
    ensures
        match r {
            Some(s) => attribution(*d) == Some(s@),
            None => attribution(*d) is None,
        },
{
    match &d.service_name {
        Some(s) => Some(s),
        None => match &d.repo_name {
            Some(s) => Some(s),
            None => None,
        },
    }
}

/// Whether some operation votes on the key, and whether all votes are for the
/// repository.
fn count_votes(ops: &Vec<ApiEndpointDetails>, key: &str, repo: &str) -> (r: (bool, bool))
    ensures
        r.0 == some_vote(ops@, key@),
        r.1 == votes_only_for(ops@, key@, repo@),
{
    let mut any = false;
    let mut only = true;
    let mut i: usize = 0;
    while i < ops.len()
        invariant
            i <= ops@.len(),
            any == exists|k: int| 0 <= k < i && votes(#[trigger] ops@[k], key@),
            only == forall|k: int|
                0 <= k < i && votes(#[trigger] ops@[k], key@) ==> attribution(ops@[k]) == Some(
                    repo@,
                ),
        decreases ops@.len() - i,
    {
        let d = &ops[i];
        let is_http = match &d.key {
            OperationKey::Http { .. } => true,
            _ => false,
        };
        if !is_http && text::same_text(&d.key.canonical(), key) {
            if let Some(owner) = attribution_of(d) {
                assert(votes(ops@[i as int], key@));
                any = true;
                if !text::same_text(owner, repo) {
                    only = false;
                }
            }
        }
        i += 1;
    }
    (any, only)
}

/// Whether an operation is part of a loop inside one repository.
pub fn is_self_loop_op(
    d: &ApiEndpointDetails,
    endpoints: &Vec<ApiEndpointDetails>,
    calls: &Vec<ApiEndpointDetails>,
) -> (r: bool)
    ensures
        r == is_self_loop(*d, endpoints@, calls@),
{
    match attribution_of(d) {
        Some(repo) => {
            let key = d.key.canonical();
            let (produced, only_produced) = count_votes(endpoints, &key, repo);
            let (consumed, only_consumed) = count_votes(calls, &key, repo);
            produced && consumed && only_produced && only_consumed
        },
        None => false,
    }
}

/// An operation that is attributed to nobody stays, and so does one whose key
/// another repository touches.
pub proof fn law_only_pure_loops_dropped(
    d: ApiEndpointDetails,
    endpoints: Seq<ApiEndpointDetails>,
    calls: Seq<ApiEndpointDetails>,
    other: int,
)
    ensures
        attribution(d) is None ==> !is_self_loop(d, endpoints, calls),
        0 <= other < endpoints.len() && votes(
            endpoints[other],
            operation::canonical_spec(d.key@),
        ) && attribution(endpoints[other]) != attribution(d) ==> !is_self_loop(d, endpoints, calls),
        0 <= other < calls.len() && votes(calls[other], operation::canonical_spec(d.key@))
            && attribution(calls[other]) != attribution(d) ==> !is_self_loop(d, endpoints, calls),
{
}

proof fn lemma_http_text_is_its_own(a: operation::KeyModel, b: operation::KeyModel)
    requires
        a is Http,
        !(b is Http),
    ensures
        operation::canonical_spec(a) != operation::canonical_spec(b),
{
    reveal_strlit("http|");
    reveal_strlit("socket|");
    reveal_strlit("graphql|");
    reveal_strlit("pubsub|");
    let x = operation::canonical_spec(a);
    let y = operation::canonical_spec(b);
    assert(x[0] == 'h');
    assert(y[0] != 'h');
}

/// HTTP operations are never dropped as loops.
pub proof fn law_http_never_a_loop(
    d: ApiEndpointDetails,
    endpoints: Seq<ApiEndpointDetails>,
    calls: Seq<ApiEndpointDetails>,
)
    requires
        d.key@ is Http,
    ensures
        !is_self_loop(d, endpoints, calls),
{
    let key = operation::canonical_spec(d.key@);
    if is_self_loop(d, endpoints, calls) {
        let i = choose|i: int| 0 <= i < endpoints.len() && votes(#[trigger] endpoints[i], key);
        lemma_http_text_is_its_own(d.key@, endpoints[i].key@);
    }
}

// ---------------------------------------------------------------------------
// The projection
// ---------------------------------------------------------------------------

/// The operations of one side, projected, without the loops.
pub open spec fn projected_ops(
    ops: Seq<ApiEndpointDetails>,
    endpoints: Seq<ApiEndpointDetails>,
    calls: Seq<ApiEndpointDetails>,
    manifest: Seq<TypeManifestEntry>,
    role: ManifestRole,
) -> Seq<EvalOpModel>
    decreases ops.len(),
{
    if ops.len() == 0 {
        Seq::empty()
    } else {
        let before = projected_ops(ops.drop_last(), endpoints, calls, manifest, role);
        if is_self_loop(ops.last(), endpoints, calls) {
            before
        } else {
            before.push(eval_op_spec(ops.last(), manifest, role))
        }
    }
}

fn project_ops(
    ops: &Vec<ApiEndpointDetails>,
    result: &ApiAnalysisResult,
    manifest: &Vec<TypeManifestEntry>,
    role: ManifestRole,
) -> (r: Vec<EvalOp>)
    ensures
        r.deep_view() == projected_ops(
            ops@,
            result.endpoints@,
            result.calls@,
            manifest@,
            role,
        ),
{
    let mut out: Vec<EvalOp> = Vec::new();
    assert(out.deep_view() =~= Seq::empty());
    let mut i: usize = 0;
    while i < ops.len()
        invariant
            i <= ops@.len(),
            out.deep_view() == projected_ops(
                ops@.take(i as int),
                result.endpoints@,
                result.calls@,
                manifest@,
                role,
            ),
        decreases ops@.len() - i,
    {
        assert(ops@.take(i + 1).drop_last() =~= ops@.take(i as int));
        if !is_self_loop_op(&ops[i], &result.endpoints, &result.calls) {
            text::push_deep(&mut out, EvalOp::from_details(&ops[i], manifest, role));
        }
        i += 1;
    }
    assert(ops@.take(i as int) =~= ops@);
    out
}

/// A matched edge, projected.
pub open spec fn match_spec(m: MatchedEdge) -> MatchModel {
    MatchModel {
        producer_repo: m.producer_repo@,
        producer_key: m.producer_key@,
        consumer_repo: m.consumer_repo@,
        consumer_key: m.consumer_key@,
        match_score_bits: m.match_score_bits,
        type_compatible: m.type_compatible,
        mismatch_reason: m.mismatch_reason.deep_view(),
    }
}

impl CrossRepoMatch {
    /// Projects a matched edge.
    pub fn from_analyzer(m: &MatchedEdge) -> (r: Self)
        ensures
            r.deep_view() == match_spec(*m),
    {
        CrossRepoMatch {
            producer_repo: m.producer_repo.clone(),
            producer_key: m.producer_key.clone(),
            consumer_repo: m.consumer_repo.clone(),
            consumer_key: m.consumer_key.clone(),
            match_score_bits: m.match_score_bits,
            type_compatible: m.type_compatible,
            mismatch_reason: text::copy_opt(&m.mismatch_reason),
        }
    }
}

/// A dependency conflict, projected.
pub open spec fn conflict_spec(c: DependencyConflict) -> ConflictModel {
    ConflictModel {
        package: c.package_name@,
        versions: sorting::distinct_texts(
            c.repos@.map_values(|r: crate::analyzer::RepoPackageInfo| r.version@),
        ),
        severity: severity_name(c.severity),
    }
}

impl EvalDependencyConflict {
    /// Projects a dependency conflict: its versions in order, each once.
    pub fn from_conflict(c: &DependencyConflict) -> (r: Self)
        ensures
            r.deep_view() == conflict_spec(*c),
    {
        let ghost all = c.repos@.map_values(|r: crate::analyzer::RepoPackageInfo| r.version@);
        let mut versions: Vec<String> = Vec::new();
        let mut i: usize = 0;
        assert(versions.deep_view() =~= all.take(0));
        while i < c.repos.len()
            invariant
                i <= c.repos@.len(),
                all == c.repos@.map_values(|r: crate::analyzer::RepoPackageInfo| r.version@),
                versions.deep_view() == all.take(i as int),
            decreases c.repos@.len() - i,
        {
            text::push_deep(&mut versions, c.repos[i].version.clone());
            i += 1;
            assert(versions.deep_view() =~= all.take(i as int));
        }
        assert(all.take(i as int) =~= all);
        EvalDependencyConflict {
            package: c.package_name.clone(),
            versions: sorting::sort_distinct(versions),
            severity: conflict_severity_string(&c.severity),
        }
    }
}

impl EvalProjection {
    /// Projects the result of an analysis, joined to the merged manifest: the
    /// operations without the loops inside one repository, the edges in the
    /// order of their ends, the conflicts in the order of their packages.
    pub fn from_results(result: &ApiAnalysisResult, type_manifest: &Vec<TypeManifestEntry>) -> (r:
        Self)
        ensures
            r.endpoints.deep_view() == projected_ops(
                result.endpoints@,
                result.endpoints@,
                result.calls@,
                type_manifest@,
                ManifestRole::Producer,
            ),
            r.calls.deep_view() == projected_ops(
                result.calls@,
                result.endpoints@,
                result.calls@,
                type_manifest@,
                ManifestRole::Consumer,
            ),
            r.cross_repo_matches.deep_view() == sorting::sorted_by_key(
                result.cross_repo_matches@.map_values(|m: MatchedEdge| match_spec(m)),
            ),
            r.dependency_conflicts.deep_view() == sorting::sorted_by_key(
                result.dependency_conflicts@.map_values(
                    |c: DependencyConflict| conflict_spec(c),
                ),
            ),
    {
        let ghost edges = result.cross_repo_matches@.map_values(|m: MatchedEdge| match_spec(m));
        let mut matches: Vec<CrossRepoMatch> = Vec::new();
        let mut i: usize = 0;
        assert(matches.deep_view() =~= edges.take(0));
        while i < result.cross_repo_matches.len()
            invariant
                i <= result.cross_repo_matches@.len(),
                edges == result.cross_repo_matches@.map_values(|m: MatchedEdge| match_spec(m)),
                matches.deep_view() == edges.take(i as int),
            decreases result.cross_repo_matches@.len() - i,
        {
            text::push_deep(
                &mut matches,
                CrossRepoMatch::from_analyzer(&result.cross_repo_matches[i]),
            );
            i += 1;
            assert(matches.deep_view() =~= edges.take(i as int));
        }
        assert(edges.take(i as int) =~= edges);
        let ghost found = result.dependency_conflicts@.map_values(
            |c: DependencyConflict| conflict_spec(c),
        );
        let mut conflicts: Vec<EvalDependencyConflict> = Vec::new();
        let mut j: usize = 0;
        assert(conflicts.deep_view() =~= found.take(0));
        while j < result.dependency_conflicts.len()
            invariant
                j <= result.dependency_conflicts@.len(),
                found == result.dependency_conflicts@.map_values(
                    |c: DependencyConflict| conflict_spec(c),
                ),
                conflicts.deep_view() == found.take(j as int),
            decreases result.dependency_conflicts@.len() - j,
        {
            text::push_deep(
                &mut conflicts,
                EvalDependencyConflict::from_conflict(&result.dependency_conflicts[j]),
            );
            j += 1;
            assert(conflicts.deep_view() =~= found.take(j as int));
        }
        assert(found.take(j as int) =~= found);
        assert(sorting::models(matches@) =~= matches.deep_view());
        assert(sorting::models(conflicts@) =~= conflicts.deep_view());
        proof {
            sorting::lemma_sorted_models::<MatchModel, CrossRepoMatch>(matches@);
            sorting::lemma_sorted_models::<ConflictModel, EvalDependencyConflict>(conflicts@);
        }
        let cross_repo_matches = sorting::sort_by_key(matches);
        let dependency_conflicts = sorting::sort_by_key(conflicts);
        assert(cross_repo_matches.deep_view() =~= sorting::models(cross_repo_matches@));
        assert(dependency_conflicts.deep_view() =~= sorting::models(dependency_conflicts@));
        EvalProjection {
            endpoints: project_ops(
                &result.endpoints,
                result,
                type_manifest,
                ManifestRole::Producer,
            ),
            calls: project_ops(&result.calls, result, type_manifest, ManifestRole::Consumer),
            cross_repo_matches,
            dependency_conflicts,
        }
    }
}

/// The two sides of one operation read their types from their own entries: an
/// entry of the other role, or of another operation, is never chosen.
pub proof fn law_chosen_entry_is_of_the_slot(
    entries: Seq<TypeManifestEntry>,
    site: SiteModel,
    wanted: Wanted,
    line: u32,
)
    ensures
        nearest(entries, site, wanted, line) matches Some(e) ==> at_site(e, site) && is_wanted(
            e,
            wanted,
        ) && entries.contains(e),
        chosen_entry(entries, site, line) matches Some(e) ==> e.role == site.role
            && operation::canonical_spec(e.key@) == site.key,
{
    lemma_nearest(entries, site, wanted, line);
    lemma_nearest(entries, site, Wanted::DefinedResponse, line);
    lemma_nearest(entries, site, Wanted::DefinedRequest, line);
    lemma_nearest(entries, site, Wanted::Any, line);
}

proof fn lemma_nearest(
    entries: Seq<TypeManifestEntry>,
    site: SiteModel,
    wanted: Wanted,
    line: u32,
)
    ensures
        nearest(entries, site, wanted, line) matches Some(e) ==> at_site(e, site) && is_wanted(
            e,
            wanted,
        ) && entries.contains(e),
    decreases entries.len(),
{
    if entries.len() > 0 {
        let front = entries.drop_last();
        lemma_nearest(front, site, wanted, line);
        if let Some(e) = nearest(entries, site, wanted, line) {
            if e == entries.last() {
                assert(entries[entries.len() - 1] == e);
            } else {
                let k = choose|k: int| 0 <= k < front.len() && front[k] == e;
                assert(entries[k] == e);
            }
        }
    }
}

} // verus!
