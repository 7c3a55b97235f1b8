//! The manifest of a generated project: its package table and the
//! dependencies the generated code needs.

use vstd::prelude::*;
use vstd::string::*;

verus! {

/// One dependency of the generated project.
#[derive(Debug, Clone, PartialEq, Eq)]
pub struct DependencyInfo {
    pub version: String,
    pub features: Option<Vec<String>>,
}

/// The mathematical content of a [`DependencyInfo`].
pub struct DependencyInfoView {
    pub version: Seq<char>,
    pub features: Option<Seq<Seq<char>>>,
}

impl View for DependencyInfo {
    type V = DependencyInfoView;

    open spec fn view(&self) -> DependencyInfoView {
        DependencyInfoView {
            version: self.version@,
            features: match self.features {
                Some(list) => Some(list@.map_values(|s: String| s@)),
                None => None,
            },
        }
    }
}

/// The two tables of a manifest. Each table is kept in ascending key order,
/// so that it is written out the way an ordered map would be.
#[derive(Debug, Clone, PartialEq, Eq)]
pub struct TomlStructure {
    package: Vec<(String, String)>,
    dependencies: Vec<(String, DependencyInfo)>,
}

/// `a` comes strictly before `b` in the lexicographic order of their
/// characters, the first difference being at index `k` (or `a` ending there).
pub open spec fn differs_at(a: Seq<char>, b: Seq<char>, k: int) -> bool {
    &&& 0 <= k <= a.len()
    &&& k <= b.len()
    &&& forall|j: int| 0 <= j < k ==> a[j] == b[j]
    &&& if k == a.len() {
        k < b.len()
    } else {
        k < b.len() && (a[k] as u32) < (b[k] as u32)
    }
}

/// Strict lexicographic order on strings, character by character. It is the
/// order in which `String` itself is ordered.
pub open spec fn key_before(a: Seq<char>, b: Seq<char>) -> bool {
    exists|k: int| differs_at(a, b, k)
}

/// Neighbouring keys ascend strictly, hence no key occurs twice.
pub open spec fn keys_ascend(keys: Seq<Seq<char>>) -> bool {
    forall|i: int| 0 <= i < keys.len() - 1 ==> key_before(#[trigger] keys[i], keys[i + 1])
}

/// The package table of a project called `name`.
pub open spec fn package_table(name: Seq<char>) -> Seq<(Seq<char>, Seq<char>)> {
    seq![("edition"@, "2021"@), ("name"@, name), ("version"@, "0.1.0"@)]
}

pub open spec fn plain_dependency(version: Seq<char>) -> DependencyInfoView {
    DependencyInfoView { version, features: None }
}

pub open spec fn featured_dependency(
    version: Seq<char>,
    features: Seq<Seq<char>>,
) -> DependencyInfoView {
    DependencyInfoView { version, features: Some(features) }
}

/// The dependencies of every generated project.
pub open spec fn dependency_table() -> Seq<(Seq<char>, DependencyInfoView)> {
    seq![
        (
            "async-graphql"@,
            featured_dependency("3.0.38"@, seq!["decimal"@, "chrono"@, "dataloader"@]),
        ),
        ("async-graphql-poem"@, plain_dependency("3.0.38"@)),
        ("async-trait"@, plain_dependency("0.1.53"@)),
        ("itertools"@, plain_dependency("0.10.3"@)),
        ("poem"@, plain_dependency("1.3.29"@)),
        (
            "sea-orm"@,
            featured_dependency("0.7.0"@, seq!["sqlx-sqlite"@, "runtime-async-std-native-tls"@]),
        ),
        ("tokio"@, featured_dependency("1.17.0"@, seq!["macros"@, "rt-multi-thread"@])),
        ("tracing"@, plain_dependency("0.1.34"@)),
        ("tracing-subscriber"@, plain_dependency("0.3.11"@)),
    ]
}

fn plain(key: &str, version: &str) -> (entry: (String, DependencyInfo))
    ensures
        entry.0@ == key@,
        entry.1@ == plain_dependency(version@),
{
    (String::from_str(key), DependencyInfo { version: String::from_str(version), features: None })
}

fn featured(key: &str, version: &str, first: &str, second: &str) -> (entry: (
    String,
    DependencyInfo,
))
    ensures
        entry.0@ == key@,
        entry.1@ == featured_dependency(version@, seq![first@, second@]),
{
    let mut features: Vec<String> = Vec::new();
    features.push(String::from_str(first));
    features.push(String::from_str(second));
    assert(features@.map_values(|s: String| s@) =~= seq![first@, second@]);
    (
        String::from_str(key),
        DependencyInfo { version: String::from_str(version), features: Some(features) },
    )
}

proof fn lemma_package_keys_ascend(name: Seq<char>)
    ensures
        keys_ascend(package_table(name).map_values(|e: (Seq<char>, Seq<char>)| e.0)),
{
    reveal_strlit("edition");
    reveal_strlit("name");
    reveal_strlit("version");
    let keys = package_table(name).map_values(|e: (Seq<char>, Seq<char>)| e.0);
    assert(differs_at(keys[0], keys[1], 0));
    assert(differs_at(keys[1], keys[2], 0));
}

proof fn lemma_dependency_keys_ascend()
    ensures
        keys_ascend(dependency_table().map_values(|e: (Seq<char>, DependencyInfoView)| e.0)),
{
    reveal_strlit("async-graphql");
    reveal_strlit("async-graphql-poem");
    reveal_strlit("async-trait");
    reveal_strlit("itertools");
    reveal_strlit("poem");
    reveal_strlit("sea-orm");
    reveal_strlit("tokio");
    reveal_strlit("tracing");
    reveal_strlit("tracing-subscriber");
    let keys = dependency_table().map_values(|e: (Seq<char>, DependencyInfoView)| e.0);
    assert(differs_at(keys[0], keys[1], 13));
    assert(differs_at(keys[1], keys[2], 6));
    assert(differs_at(keys[2], keys[3], 0));
    assert(differs_at(keys[3], keys[4], 0));
    assert(differs_at(keys[4], keys[5], 0));
    assert(differs_at(keys[5], keys[6], 0));
    assert(differs_at(keys[6], keys[7], 1));
    assert(differs_at(keys[7], keys[8], 7));
}

impl TomlStructure {
    /// The package table: keys with their values, in ascending key order.
    pub closed spec fn package_view(&self) -> Seq<(Seq<char>, Seq<char>)> {
        self.package@.map_values(|e: (String, String)| (e.0@, e.1@))
    }

    /// The dependency table, in ascending key order.
    pub closed spec fn dependencies_view(&self) -> Seq<(Seq<char>, DependencyInfoView)> {
        self.dependencies@.map_values(|e: (String, DependencyInfo)| (e.0@, e.1@))
    }

    /// Both tables are in strictly ascending key order.
    pub open spec fn well_formed(&self) -> bool {
        &&& keys_ascend(self.package_view().map_values(|e: (Seq<char>, Seq<char>)| e.0))
        &&& keys_ascend(
            self.dependencies_view().map_values(|e: (Seq<char>, DependencyInfoView)| e.0),
        )
    }

    /// The manifest of a project called `name`.
    pub fn new(name: String) -> (manifest: Self)
        ensures
            manifest.package_view() == package_table(name@),
            manifest.dependencies_view() == dependency_table(),
            manifest.well_formed(),
    {
        let mut package: Vec<(String, String)> = Vec::new();
        package.push((String::from_str("edition"), String::from_str("2021")));
        package.push((String::from_str("name"), name));
        package.push((String::from_str("version"), String::from_str("0.1.0")));

        let mut async_graphql_features: Vec<String> = Vec::new();
        async_graphql_features.push(String::from_str("decimal"));
        async_graphql_features.push(String::from_str("chrono"));
        async_graphql_features.push(String::from_str("dataloader"));
        assert(async_graphql_features@.map_values(|s: String| s@) =~= seq![
            "decimal"@,
            "chrono"@,
            "dataloader"@,
        ]);

        let mut dependencies: Vec<(String, DependencyInfo)> = Vec::new();
        dependencies.push(
            (
                String::from_str("async-graphql"),
                DependencyInfo {
                    version: String::from_str("3.0.38"),
                    features: Some(async_graphql_features),
                },
            ),
        );
        dependencies.push(plain("async-graphql-poem", "3.0.38"));
        dependencies.push(plain("async-trait", "0.1.53"));
        dependencies.push(plain("itertools", "0.10.3"));
        dependencies.push(plain("poem", "1.3.29"));
        dependencies.push(
            featured("sea-orm", "0.7.0", "sqlx-sqlite", "runtime-async-std-native-tls"),
        );
        dependencies.push(featured("tokio", "1.17.0", "macros", "rt-multi-thread"));
        dependencies.push(plain("tracing", "0.1.34"));
        dependencies.push(plain("tracing-subscriber", "0.3.11"));

        let manifest = Self { package, dependencies };
        proof {
            assert(manifest.package_view() =~= package_table(name@));
            assert(manifest.dependencies_view() =~= dependency_table());
            lemma_package_keys_ascend(name@);
            lemma_dependency_keys_ascend();
        }
        manifest
    }

    /// The entries of the package table, in ascending key order.
    pub fn package(&self) -> (entries: &Vec<(String, String)>)
        ensures
            entries@.map_values(|e: (String, String)| (e.0@, e.1@)) == self.package_view(),
    {
        &self.package
    }

    /// The entries of the dependency table, in ascending key order.
    pub fn dependencies(&self) -> (entries: &Vec<(String, DependencyInfo)>)
        ensures
            entries@.map_values(|e: (String, DependencyInfo)| (e.0@, e.1@))
                == self.dependencies_view(),
    {
        &self.dependencies
    }
}

} // verus!
