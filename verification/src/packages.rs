//! The package manifests of a service and the dependencies merged from them.

use vstd::prelude::*;

use crate::sorting::{Keyed, SortKey};
use crate::{sorting, text};

verus! {

/// A name with a version specification.
#[derive(Debug)]
pub struct Dependency {
    pub name: String,
    pub version: String,
}

impl Clone for Dependency {
    fn clone(&self) -> (r: Self)
        ensures
            r == *self,
    {
        Dependency { name: self.name.clone(), version: self.version.clone() }
    }
}

impl Keyed for Dependency {
    open spec fn sort_key(&self) -> Seq<Seq<char>> {
        seq![self.name@]
    }
}

impl SortKey for Dependency {
    fn key_at_most(&self, other: &Self) -> (r: bool) {
        sorting::one_text_at_most(self.name.as_str(), other.name.as_str())
    }
}

/// One `package.json`.
#[derive(Clone, Debug)]
pub struct PackageJson {
    pub name: Option<String>,
    pub version: Option<String>,
    pub dependencies: Vec<Dependency>,
    pub dev_dependencies: Vec<Dependency>,
    pub peer_dependencies: Vec<Dependency>,
    pub resolutions: Vec<Dependency>,
}

/// The manifests found for a service.
#[derive(Clone, Debug)]
pub struct Packages {
    pub package_jsons: Vec<PackageJson>,
    pub source_paths: Vec<String>,
    /// Names declared by any manifest of the whole repository tree.
    pub internal_names: Vec<String>,
    /// The merged dependencies, one entry for each name.
    pub merged_dependencies: Vec<Dependency>,
}

impl Packages {
    /// No manifest at all.
    pub fn empty() -> (r: Self)
        ensures
            r.package_jsons@.len() == 0,
            r.source_paths@.len() == 0,
            r.internal_names@.len() == 0,
            r.merged_dependencies@.len() == 0,
    {
        Packages {
            package_jsons: Vec::new(),
            source_paths: Vec::new(),
            internal_names: Vec::new(),
            merged_dependencies: Vec::new(),
        }
    }
}

/// Whether a manifest declares the name as its own.
pub open spec fn is_named(package_json: PackageJson, name: Seq<char>) -> bool {
    package_json.name.deep_view() == Some(name)
}

/// Whether a name is declared by one of the service's own manifests or
/// anywhere in its repository tree.
pub open spec fn declares(packages: Packages, name: Seq<char>) -> bool {
    ||| text::among(name, packages.internal_names.deep_view())
    ||| exists|i: int|
        0 <= i < packages.package_jsons@.len() && is_named(
            #[trigger] packages.package_jsons@[i],
            name,
        )
}

impl Packages {
    /// The names that the scanned manifests declare themselves.
    pub fn internal_package_names(&self) -> (r: Vec<String>)
        ensures
            forall|name: Seq<char>|
                #[trigger] text::among(name, r.deep_view()) <==> declares(*self, name),
    {
        let mut names: Vec<String> = Vec::new();
        let mut i: usize = 0;
        while i < self.internal_names.len()
            invariant
                i <= self.internal_names@.len(),
                names.deep_view() == self.internal_names.deep_view().take(i as int),
            decreases self.internal_names@.len() - i,
        {
            text::push_deep(&mut names, self.internal_names[i].clone());
            i += 1;
            assert(names.deep_view() =~= self.internal_names.deep_view().take(i as int));
        }
        assert(names.deep_view() =~= self.internal_names.deep_view());
        let mut j: usize = 0;
        while j < self.package_jsons.len()
            invariant
                j <= self.package_jsons@.len(),
                forall|name: Seq<char>|
                    #[trigger] text::among(name, names.deep_view()) <==> {
                        ||| text::among(name, self.internal_names.deep_view())
                        ||| exists|k: int|
                            0 <= k < j && is_named(#[trigger] self.package_jsons@[k], name)
                    },
            decreases self.package_jsons@.len() - j,
        {
            let ghost before = names.deep_view();
            match &self.package_jsons[j].name {
                Some(n) => {
                    text::push_deep(&mut names, n.clone());
                    assert forall|name: Seq<char>| #[trigger]
                        text::among(name, names.deep_view()) <==> (text::among(name, before)
                            || name == n@) by {
                        let after = names.deep_view();
                        if text::among(name, before) {
                            let k = choose|k: int| 0 <= k < before.len() && before[k] == name;
                            assert(after[k] == name);
                        }
                        if name == n@ {
                            assert(after[before.len() as int] == name);
                        }
                        if text::among(name, after) {
                            let k = choose|k: int| 0 <= k < after.len() && after[k] == name;
                            if k < before.len() {
                                assert(before[k] == name);
                            }
                        }
                    }
                },
                None => {},
            }
            j += 1;
        }
        names
    }

    /// The merged dependencies.
    pub fn get_dependencies(&self) -> (r: &Vec<Dependency>)
        ensures
            *r == self.merged_dependencies,
    {
        &self.merged_dependencies
    }
}

} // verus!
