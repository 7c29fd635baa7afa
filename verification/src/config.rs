//! The services that a repository declares, and what follows from a
//! declaration: where a service is scanned, and what is wrong with it.

use vstd::prelude::*;

use crate::packages::Packages;
use crate::{paths, text};

verus! {

/// One declared service. Without a declaration there is one, at the root.
#[derive(Debug)]
pub struct Config {
    pub service_name: Option<String>,
    pub directory: Option<String>,
    pub includes: Vec<String>,
    pub tsconfig: Option<String>,
    pub internal_env_vars: Vec<String>,
}

impl Default for Config {
    fn default() -> (r: Self)
        ensures
            r.service_name is None,
            r.directory is None,
            r.includes@.len() == 0,
            r.tsconfig is None,
            r.internal_env_vars@.len() == 0,
    {
        Config {
            service_name: None,
            directory: None,
            includes: Vec::new(),
            tsconfig: None,
            internal_env_vars: Vec::new(),
        }
    }
}

// ---------------------------------------------------------------------------
// Places
// ---------------------------------------------------------------------------

/// The root of a service: its directory, or that of the repository.
pub open spec fn scan_root(repo_path: Seq<char>, service: Config) -> Seq<char> {
    match service.directory {
        Some(dir) => paths::joined_path(repo_path, dir@),
        None => repo_path,
    }
}

/// The root of a service, which routes are relative to.
pub fn service_scan_root(repo_path: &str, service: &Config) -> (r: String)
    ensures
        r@ == scan_root(repo_path@, *service),
{
    match &service.directory {
        Some(dir) => paths::join_path(repo_path, dir),
        None => text::owned(repo_path),
    }
}

/// The directories in which a service's own schema files lie: its root and what
/// it includes.
pub fn service_graphql_roots(repo_path: &str, service: &Config) -> (r: Vec<String>)
    ensures
        r.deep_view() == seq![scan_root(repo_path@, *service)] + service.includes.deep_view().map_values(
            |p: Seq<char>| paths::joined_path(repo_path@, p),
        ),
{
    let includes = &service.includes;
    let ghost joined = includes.deep_view().map_values(
        |p: Seq<char>| paths::joined_path(repo_path@, p),
    );
    let ghost root = seq![scan_root(repo_path@, *service)];
    let mut roots: Vec<String> = Vec::new();
    text::push_deep(&mut roots, service_scan_root(repo_path, service));
    assert(roots.deep_view() =~= root + joined.take(0));
    let mut i: usize = 0;
    while i < includes.len()
        invariant
            i <= includes@.len(),
            joined == includes.deep_view().map_values(
                |p: Seq<char>| paths::joined_path(repo_path@, p),
            ),
            roots.deep_view() == root + joined.take(i as int),
        decreases includes@.len() - i,
    {
        assert(includes.deep_view()[i as int] == includes@[i as int]@);
        text::push_deep(&mut roots, paths::join_path(repo_path, &includes[i]));
        i += 1;
        assert(roots.deep_view() =~= root + joined.take(i as int));
    }
    assert(joined.take(i as int) =~= joined);
    roots
}

/// The patterns that are skipped: build artefacts, and the bundled type checker
/// where no directory is declared.
pub open spec fn ignore_patterns(service: Config) -> Seq<Seq<char>> {
    let artefacts = seq!["node_modules"@, "dist"@, "build"@, ".next"@];
    if service.directory is None {
        artefacts.push("ts_check"@)
    } else {
        artefacts
    }
}

/// The patterns that are skipped when a service is scanned.
pub fn service_ignore_patterns(service: &Config) -> (r: Vec<String>)
    ensures
        r.deep_view() == ignore_patterns(*service),
{
    let mut patterns: Vec<String> = Vec::new();
    patterns.push(text::owned("node_modules"));
    patterns.push(text::owned("dist"));
    patterns.push(text::owned("build"));
    patterns.push(text::owned(".next"));
    if service.directory.is_none() {
        patterns.push(text::owned("ts_check"));
    }
    assert(patterns.deep_view() =~= ignore_patterns(*service));
    patterns
}

/// Where the type sidecar is started anew for a service.
#[derive(Debug)]
pub struct SidecarScope {
    pub root: String,
    pub tsconfig: Option<String>,
    /// How the service is called in messages.
    pub label: String,
}

/// Where the type sidecar is started anew for a service: nowhere if the service
/// is the whole repository, for which it runs already.
pub fn sidecar_scope(canonical_repo_path: &str, service: &Config) -> (r: Option<SidecarScope>)
    ensures
        match r {
            Some(scope) => {
                &&& service.directory is Some || service.tsconfig is Some
                &&& scope.root@ == scan_root(canonical_repo_path@, *service)
                &&& scope.tsconfig.deep_view() == service.tsconfig.deep_view()
                &&& scope.label@ == match service.service_name {
                    Some(name) => name@,
                    None => "(root)"@,
                }
            },
            None => service.directory is None && service.tsconfig is None,
        },
{
    if service.directory.is_none() && service.tsconfig.is_none() {
        return None;
    }
    Some(
        SidecarScope {
            root: service_scan_root(canonical_repo_path, service),
            tsconfig: text::copy_opt(&service.tsconfig),
            label: text::or_else_text(&service.service_name, "(root)"),
        },
    )
}

// ---------------------------------------------------------------------------
// Declarations
// ---------------------------------------------------------------------------

/// Which of the paths that a service declares exist.
#[derive(Debug)]
pub struct DeclaredPaths {
    /// Whether the directory is one.
    pub directory: bool,
    /// Whether each included path exists.
    pub includes: Vec<bool>,
}

/// How a service is called in an error: by its name, else its directory.
pub open spec fn service_label(service: Config) -> Seq<char> {
    match (service.service_name, service.directory) {
        (Some(name), _) => name@,
        (None, Some(dir)) => dir@,
        (None, None) => "<unnamed>"@,
    }
}

/// The error about a declared path.
pub open spec fn missing_path(
    service: Config,
    config_path: Seq<char>,
    what: Seq<char>,
    path: Seq<char>,
    repo_path: Seq<char>,
) -> Seq<char> {
    "Service '"@ + service_label(service) + "' in "@ + config_path + " declares "@ + what + " '"@
        + path + "', which does not exist under '"@ + repo_path + "'"@
}

/// The error about the first of the included paths that does not exist.
pub open spec fn include_error(
    service: Config,
    exist: Seq<bool>,
    from: int,
    config_path: Seq<char>,
    repo_path: Seq<char>,
) -> Option<Seq<char>>
    decreases service.includes@.len() - from,
{
    if from < 0 || from >= service.includes@.len() {
        None
    } else if !exist[from] {
        Some(
            missing_path(
                service,
                config_path,
                "include path"@,
                service.includes@[from]@,
                repo_path,
            ),
        )
    } else {
        include_error(service, exist, from + 1, config_path, repo_path)
    }
}

/// What is wrong with a declared service: its directory, else the first of its
/// included paths.
pub open spec fn service_error(
    service: Config,
    exist: DeclaredPaths,
    config_path: Seq<char>,
    repo_path: Seq<char>,
) -> Option<Seq<char>> {
    match service.directory {
        Some(dir) => if !exist.directory {
            Some(missing_path(service, config_path, "directory"@, dir@, repo_path))
        } else {
            include_error(service, exist.includes@, 0, config_path, repo_path)
        },
        None => include_error(service, exist.includes@, 0, config_path, repo_path),
    }
}

/// What is wrong with the first of the services that is wrong.
pub open spec fn first_service_error(
    services: Seq<Config>,
    exist: Seq<DeclaredPaths>,
    from: int,
    config_path: Seq<char>,
    repo_path: Seq<char>,
) -> Option<Seq<char>>
    decreases services.len() - from,
{
    if from < 0 || from >= services.len() {
        None
    } else {
        match service_error(services[from], exist[from], config_path, repo_path) {
            Some(e) => Some(e),
            None => first_service_error(services, exist, from + 1, config_path, repo_path),
        }
    }
}

fn missing_path_error(
    service: &Config,
    config_path: &str,
    what: &str,
    path: &str,
    repo_path: &str,
) -> (r: String)
    ensures
        r@ == missing_path(*service, config_path@, what@, path@, repo_path@),
{
    let label = match (&service.service_name, &service.directory) {
        (Some(name), _) => name.as_str(),
        (None, Some(dir)) => dir.as_str(),
        (None, None) => "<unnamed>",
    };
    let head = text::cat5("Service '", label, "' in ", config_path, " declares ");
    let middle = text::cat5(&head, what, " '", path, "', which does not exist under '");
    text::cat3(&middle, repo_path, "'")
}

fn find_service_error(
    service: &Config,
    exist: &DeclaredPaths,
    config_path: &str,
    repo_path: &str,
) -> (r: Option<String>)
    requires
        exist.includes@.len() == service.includes@.len(),
    ensures
        r.deep_view() == service_error(*service, *exist, config_path@, repo_path@),
{
    if let Some(dir) = &service.directory {
        if !exist.directory {
            return Some(missing_path_error(service, config_path, "directory", dir, repo_path));
        }
    }
    let mut i: usize = 0;
    while i < service.includes.len()
        invariant
            i <= service.includes@.len(),
            exist.includes@.len() == service.includes@.len(),
            service.directory is Some ==> exist.directory,
            include_error(*service, exist.includes@, 0, config_path@, repo_path@) == include_error(
                *service,
                exist.includes@,
                i as int,
                config_path@,
                repo_path@,
            ),
        decreases service.includes@.len() - i,
    {
        if !exist.includes[i] {
            return Some(
                missing_path_error(
                    service,
                    config_path,
                    "include path",
                    &service.includes[i],
                    repo_path,
                ),
            );
        }
        i += 1;
    }
    None
}

fn find_first_service_error(
    services: &Vec<Config>,
    exist: &Vec<DeclaredPaths>,
    config_path: &str,
    repo_path: &str,
) -> (r: Option<String>)
    requires
        paths_match_services(services@, exist@),
    ensures
        r.deep_view() == first_service_error(services@, exist@, 0, config_path@, repo_path@),
{
    let mut i: usize = 0;
    while i < services.len()
        invariant
            i <= services@.len(),
            paths_match_services(services@, exist@),
            first_service_error(services@, exist@, 0, config_path@, repo_path@)
                == first_service_error(services@, exist@, i as int, config_path@, repo_path@),
        decreases services@.len() - i,
    {
        assert(exist@[i as int].includes@.len() == services@[i as int].includes@.len());
        let found = find_service_error(&services[i], &exist[i], config_path, repo_path);
        if found.is_some() {
            return found;
        }
        i += 1;
    }
    None
}

/// Whether there is an answer about each path that the services declare.
pub open spec fn paths_match_services(services: Seq<Config>, exist: Seq<DeclaredPaths>) -> bool {
    services.len() == exist.len() && forall|i: int|
        0 <= i < services.len() ==> (#[trigger] exist[i]).includes@.len()
            == services[i].includes@.len()
}

/// Where the configuration of a repository lies.
pub fn config_path(repo_path: &str) -> (r: String)
    ensures
        r@ == paths::joined_path(repo_path@, "carrick.json"@),
{
    paths::join_path(repo_path, "carrick.json")
}

/// The services of a repository. `loaded` is what the configuration declares:
/// nothing where there is none, or the reason why it cannot be read. A
/// declaration that cannot be read or names a path that does not exist is an
/// error; without any declared service there is one, at the root.
pub fn resolve_services(
    repo_path: &str,
    loaded: Option<Result<Vec<Config>, String>>,
    exist: &Vec<DeclaredPaths>,
) -> (r: Result<Vec<Config>, String>)
    requires
        loaded matches Some(Ok(services)) ==> paths_match_services(services@, exist@),
    ensures
        ({
            let path = paths::joined_path(repo_path@, "carrick.json"@);
            match loaded {
                None => r matches Ok(v) && is_single_default(v@),
                Some(Err(e)) => r matches Err(m) && m@ == "Failed to parse "@ + path + ": "@ + e@
                    + ". Fix the config or delete it to scan the repo as a single zero-config service."@,
                Some(Ok(services)) => match first_service_error(
                    services@,
                    exist@,
                    0,
                    path,
                    repo_path@,
                ) {
                    Some(e) => r matches Err(m) && m@ == e,
                    None => if services@.len() == 0 {
                        r matches Ok(v) && is_single_default(v@)
                    } else {
                        r == Ok::<Vec<Config>, String>(services)
                    },
                },
            }
        }),
{
    let path = config_path(repo_path);
    let services = match loaded {
        None => {
            return Ok(single_default());
        },
        Some(Err(e)) => {
            return Err(
                text::cat5(
                    "Failed to parse ",
                    &path,
                    ": ",
                    &e,
                    ". Fix the config or delete it to scan the repo as a single zero-config service.",
                ),
            );
        },
        Some(Ok(services)) => services,
    };
    if let Some(e) = find_first_service_error(&services, exist, &path, repo_path) {
        return Err(e);
    }
    if services.len() == 0 {
        return Ok(single_default());
    }
    Ok(services)
}

/// Whether the services are the one at the root, without any declaration.
pub open spec fn is_single_default(services: Seq<Config>) -> bool {
    &&& services.len() == 1
    &&& services[0].service_name is None
    &&& services[0].directory is None
    &&& services[0].includes@.len() == 0
    &&& services[0].tsconfig is None
    &&& services[0].internal_env_vars@.len() == 0
}

fn single_default() -> (r: Vec<Config>)
    ensures
        is_single_default(r@),
{
    let mut services: Vec<Config> = Vec::new();
    services.push(Config::default());
    services
}

/// Where nothing is wrong with the services, every path that they declare
/// exists.
pub proof fn law_declared_paths_exist(
    services: Seq<Config>,
    exist: Seq<DeclaredPaths>,
    config_path: Seq<char>,
    repo_path: Seq<char>,
    i: int,
)
    requires
        0 <= i < services.len(),
        first_service_error(services, exist, 0, config_path, repo_path) is None,
    ensures
        service_error(services[i], exist[i], config_path, repo_path) is None,
        services[i].directory is Some ==> exist[i].directory,
        forall|j: int| 0 <= j < services[i].includes@.len() ==> exist[i].includes@[j],
{
    lemma_no_service_error(services, exist, 0, config_path, repo_path, i);
    lemma_no_include_error(services[i], exist[i].includes@, 0, config_path, repo_path);
}

proof fn lemma_no_service_error(
    services: Seq<Config>,
    exist: Seq<DeclaredPaths>,
    from: int,
    config_path: Seq<char>,
    repo_path: Seq<char>,
    i: int,
)
    requires
        0 <= from <= i < services.len(),
        first_service_error(services, exist, from, config_path, repo_path) is None,
    ensures
        service_error(services[i], exist[i], config_path, repo_path) is None,
    decreases i - from,
{
    if from < i {
        lemma_no_service_error(services, exist, from + 1, config_path, repo_path, i);
    }
}

proof fn lemma_no_include_error(
    service: Config,
    exist: Seq<bool>,
    from: int,
    config_path: Seq<char>,
    repo_path: Seq<char>,
)
    requires
        0 <= from,
        include_error(service, exist, from, config_path, repo_path) is None,
    ensures
        forall|j: int| from <= j < service.includes@.len() ==> exist[j],
    decreases service.includes@.len() - from,
{
    if from < service.includes@.len() {
        lemma_no_include_error(service, exist, from + 1, config_path, repo_path);
    }
}

// ---------------------------------------------------------------------------
// What a service must have
// ---------------------------------------------------------------------------

/// The error about a service without sources.
pub open spec fn no_sources(service: Config, repo_path: Seq<char>) -> Seq<char> {
    let scope = match service.directory {
        Some(dir) => "service directory '"@ + dir@ + "'"@,
        None => "repository root"@,
    };
    "No JS/TS source files found under "@ + scope + " in '"@ + repo_path
        + "'. Check the scan path and the directory/include entries in carrick.json."@
}

/// Refuses a service without sources: to go on would erase what is known of it.
pub fn require_sources(files: &Vec<String>, service: &Config, repo_path: &str) -> (r: Result<
    (),
    String,
>)
    ensures
        match r {
            Ok(()) => files@.len() > 0,
            Err(e) => files@.len() == 0 && e@ == no_sources(*service, repo_path@),
        },
{
    if files.len() > 0 {
        return Ok(());
    }
    let scope = match &service.directory {
        Some(dir) => text::cat3("service directory '", dir, "'"),
        None => text::owned("repository root"),
    };
    Err(
        text::cat5(
            "No JS/TS source files found under ",
            &scope,
            " in '",
            repo_path,
            "'. Check the scan path and the directory/include entries in carrick.json.",
        ),
    )
}

/// A package manifest as it was found.
#[derive(Debug)]
pub struct FoundManifest {
    pub path: String,
    pub read: Result<Packages, String>,
}

/// The packages of a service, with the names that its repository declares. A
/// manifest that is missing stands for none; one that cannot be read is an
/// error.
pub fn load_packages_for_service(
    found: Option<FoundManifest>,
    internal_names: Vec<String>,
) -> (r: Result<Packages, String>)
    ensures
        match found {
            None => r matches Ok(p) && p.package_jsons@.len() == 0 && p.source_paths@.len() == 0
                && p.merged_dependencies@.len() == 0 && p.internal_names == internal_names,
            Some(m) => match m.read {
                Ok(read) => r matches Ok(p) && p.package_jsons == read.package_jsons
                    && p.source_paths == read.source_paths && p.merged_dependencies
                    == read.merged_dependencies && p.internal_names == internal_names,
                Err(e) => r matches Err(message) && message@ == "Failed to parse "@ + m.path@ + ": "@
                    + e@,
            },
        },
{
    let mut packages = match found {
        Some(manifest) => match manifest.read {
            Ok(read) => read,
            Err(e) => {
                return Err(text::cat4("Failed to parse ", &manifest.path, ": ", &e));
            },
        },
        None => Packages::empty(),
    };
    packages.internal_names = internal_names;
    Ok(packages)
}

} // verus!
