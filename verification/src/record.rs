use vstd::prelude::*;
use sha2::Digest;

use crate::name::CrateName;
use crate::name::CrateNameV;
use crate::version::Version;

verus! {

/// The digest that the checksum of an archive is computed from; a function
/// of the archive bytes alone.
pub uninterp spec fn sha256_of(data: Seq<u8>) -> Seq<u8>;

/// Relies on sha2::Sha256: the digest is a function of the bytes alone and
/// is exactly 32 bytes long.
#[verifier::external_body]
fn sha256(data: &[u8]) -> (r: Vec<u8>)
    ensures
        r@ == sha256_of(data@),
        r@.len() == 32,
{
    sha2::Sha256::digest(data).to_vec()
}

/// The lower-case digit for one hex nibble.
pub open spec fn hex_digit(n: int) -> char {
    if n == 0 {
        '0'
    } else if n == 1 {
        '1'
    } else if n == 2 {
        '2'
    } else if n == 3 {
        '3'
    } else if n == 4 {
        '4'
    } else if n == 5 {
        '5'
    } else if n == 6 {
        '6'
    } else if n == 7 {
        '7'
    } else if n == 8 {
        '8'
    } else if n == 9 {
        '9'
    } else if n == 10 {
        'a'
    } else if n == 11 {
        'b'
    } else if n == 12 {
        'c'
    } else if n == 13 {
        'd'
    } else if n == 14 {
        'e'
    } else {
        'f'
    }
}

/// Lower-case hex encoding: two digits per byte, high nibble first.
pub open spec fn hex_of(data: Seq<u8>) -> Seq<char>
    decreases data.len(),
{
    if data.len() == 0 {
        seq![]
    } else {
        seq![hex_digit(data[0] as int / 16), hex_digit(data[0] as int % 16)] + hex_of(
            data.drop_first(),
        )
    }
}

/// Relies on hex::encode: lower-case hex, two digits per byte, high nibble
/// first.
#[verifier::external_body]
fn hex_encode(data: &[u8]) -> (r: String)
    ensures
        r@ == hex_of(data@),
{
    hex::encode(data)
}

/// The checksum recorded for an archive: the lower-case hex spelling of its
/// SHA-256 digest.
pub open spec fn spec_cksum(body: Seq<u8>) -> Seq<char> {
    hex_of(sha256_of(body))
}

/// The abstract value of an optional string.
pub open spec fn opt_view(o: Option<String>) -> Option<Seq<char>> {
    match o {
        Some(s) => Some(s@),
        None => None,
    }
}

/// The abstract value of a list of strings.
pub open spec fn strings_view(v: Seq<String>) -> Seq<Seq<char>> {
    v.map_values(|s: String| s@)
}

/// Copies a list of strings; the abstract value is kept.
fn clone_strings(v: &Vec<String>) -> (r: Vec<String>)
    ensures
        strings_view(r@) == strings_view(v@),
{
    let mut r: Vec<String> = Vec::new();
    let mut i: usize = 0;
    while i < v.len()
        invariant
            i <= v@.len(),
            r@.len() == i,
            forall|j: int| 0 <= j < i ==> #[trigger] r@[j]@ == v@[j]@,
        decreases v@.len() - i,
    {
        r.push(v[i].clone());
        i += 1;
    }
    proof {
        assert(strings_view(r@) =~= strings_view(v@));
    }
    r
}

/// Copies an optional string; the abstract value is kept.
fn clone_opt_string(o: &Option<String>) -> (r: Option<String>)
    ensures
        opt_view(r) == opt_view(*o),
{
    match o {
        Some(s) => Some(s.clone()),
        None => None,
    }
}

/// Copies an optional version; the abstract value is kept.
fn clone_opt_version(o: &Option<Version>) -> (r: Option<Version>)
    ensures
        match (r, o) {
            (Some(rv), Some(ov)) => rv@ == ov@,
            (None, None) => true,
            _ => false,
        },
{
    match o {
        Some(v) => Some(v.clone()),
        None => None,
    }
}

/// How a dependency is used by the depending crate.
#[derive(Clone, Copy, Debug, PartialEq, Eq, Structural)]
pub enum DependencyKind {
    Dev,
    Build,
    Normal,
}

/// A dependency as a publish request carries it.
#[derive(Debug)]
pub struct PostDependency {
    pub name: CrateName,
    pub version_req: String,
    pub features: Vec<String>,
    pub default_features: bool,
    pub optional: bool,
    pub target: Option<String>,
    pub kind: DependencyKind,
    pub explicit_name_in_toml: Option<String>,
}

/// The abstract value of a publish-request dependency.
pub struct PostDependencyV {
    pub name: CrateNameV,
    pub version_req: Seq<char>,
    pub features: Seq<Seq<char>>,
    pub default_features: bool,
    pub optional: bool,
    pub target: Option<Seq<char>>,
    pub kind: DependencyKind,
    pub explicit_name_in_toml: Option<Seq<char>>,
}

impl View for PostDependency {
    type V = PostDependencyV;

    open spec fn view(&self) -> PostDependencyV {
        PostDependencyV {
            name: self.name@,
            version_req: self.version_req@,
            features: strings_view(self.features@),
            default_features: self.default_features,
            optional: self.optional,
            target: opt_view(self.target),
            kind: self.kind,
            explicit_name_in_toml: opt_view(self.explicit_name_in_toml),
        }
    }
}

/// A dependency as an index record carries it. The `package` and `registry`
/// overrides are always absent when this system writes a record.
#[derive(Debug)]
pub struct GetDependency {
    pub name: CrateName,
    pub req: String,
    pub features: Vec<String>,
    pub default_features: bool,
    pub optional: bool,
    pub target: Option<String>,
    pub kind: DependencyKind,
    pub package: Option<String>,
    pub registry: Option<String>,
}

/// The abstract value of an index-record dependency.
pub struct GetDependencyV {
    pub name: CrateNameV,
    pub req: Seq<char>,
    pub features: Seq<Seq<char>>,
    pub default_features: bool,
    pub optional: bool,
    pub target: Option<Seq<char>>,
    pub kind: DependencyKind,
    pub package: Option<Seq<char>>,
    pub registry: Option<Seq<char>>,
}

impl View for GetDependency {
    type V = GetDependencyV;

    open spec fn view(&self) -> GetDependencyV {
        GetDependencyV {
            name: self.name@,
            req: self.req@,
            features: strings_view(self.features@),
            default_features: self.default_features,
            optional: self.optional,
            target: opt_view(self.target),
            kind: self.kind,
            package: opt_view(self.package),
            registry: opt_view(self.registry),
        }
    }
}

impl Clone for GetDependency {
    /// Cloning keeps the abstract value.
    fn clone(&self) -> (r: Self)
        ensures
            r@ == self@,
    {
        let r = GetDependency {
            name: self.name.clone(),
            req: self.req.clone(),
            features: clone_strings(&self.features),
            default_features: self.default_features,
            optional: self.optional,
            target: clone_opt_string(&self.target),
            kind: self.kind,
            package: clone_opt_string(&self.package),
            registry: clone_opt_string(&self.registry),
        };
        proof {
            assert(r@ == self@);
        }
        r
    }
}

/// One entry of the feature table: a feature name and the features it
/// enables.
#[derive(Debug)]
pub struct FeatureEntry {
    pub name: String,
    pub enables: Vec<String>,
}

/// The abstract value of one feature-table entry.
pub struct FeatureEntryV {
    pub name: Seq<char>,
    pub enables: Seq<Seq<char>>,
}

impl View for FeatureEntry {
    type V = FeatureEntryV;

    open spec fn view(&self) -> FeatureEntryV {
        FeatureEntryV { name: self.name@, enables: strings_view(self.enables@) }
    }
}

impl Clone for FeatureEntry {
    /// Cloning keeps the abstract value.
    fn clone(&self) -> (r: Self)
        ensures
            r@ == self@,
    {
        FeatureEntry { name: self.name.clone(), enables: clone_strings(&self.enables) }
    }
}

/// Whether a feature table is a mapping: no feature name occurs twice.
pub open spec fn features_distinct(fs: Seq<FeatureEntryV>) -> bool {
    forall|i: int, j: int| 0 <= i < j < fs.len() ==> (#[trigger] fs[i]).name != (
    #[trigger] fs[j]).name
}

/// The abstract value of a feature table.
pub open spec fn features_view(v: Seq<FeatureEntry>) -> Seq<FeatureEntryV> {
    v.map_values(|f: FeatureEntry| f@)
}

/// Copies a feature table; the abstract value is kept.
fn clone_features(v: &Vec<FeatureEntry>) -> (r: Vec<FeatureEntry>)
    ensures
        features_view(r@) == features_view(v@),
{
    let mut r: Vec<FeatureEntry> = Vec::new();
    let mut i: usize = 0;
    while i < v.len()
        invariant
            i <= v@.len(),
            r@.len() == i,
            forall|j: int| 0 <= j < i ==> #[trigger] r@[j]@ == v@[j]@,
        decreases v@.len() - i,
    {
        r.push(v[i].clone());
        i += 1;
    }
    proof {
        assert(features_view(r@) =~= features_view(v@));
    }
    r
}

/// A publish request: the identifying and dependency fields that become an
/// index record, plus authorship and presentation metadata that is accepted
/// but not persisted by this core.
#[derive(Debug)]
pub struct PostIndexRequest {
    pub name: CrateName,
    pub vers: Version,
    pub deps: Vec<PostDependency>,
    pub features: Vec<FeatureEntry>,
    pub authors: Vec<String>,
    pub description: Option<String>,
    pub documentation: Option<String>,
    pub homepage: Option<String>,
    pub readme: Option<String>,
    pub readme_file: Option<String>,
    pub keywords: Vec<String>,
    pub categories: Vec<String>,
    pub license: Option<String>,
    pub license_file: Option<String>,
    pub links: Option<String>,
    pub rust_version: Option<Version>,
    pub badges: Vec<(String, String)>,
}

/// The abstract value of a publish request.
pub struct PostIndexRequestV {
    pub name: CrateNameV,
    pub vers: Seq<char>,
    pub deps: Seq<PostDependencyV>,
    pub features: Seq<FeatureEntryV>,
    pub authors: Seq<Seq<char>>,
    pub description: Option<Seq<char>>,
    pub documentation: Option<Seq<char>>,
    pub homepage: Option<Seq<char>>,
    pub readme: Option<Seq<char>>,
    pub readme_file: Option<Seq<char>>,
    pub keywords: Seq<Seq<char>>,
    pub categories: Seq<Seq<char>>,
    pub license: Option<Seq<char>>,
    pub license_file: Option<Seq<char>>,
    pub links: Option<Seq<char>>,
    pub rust_version: Option<Seq<char>>,
    pub badges: Seq<(Seq<char>, Seq<char>)>,
}

impl View for PostIndexRequest {
    type V = PostIndexRequestV;

    open spec fn view(&self) -> PostIndexRequestV {
        PostIndexRequestV {
            name: self.name@,
            vers: self.vers@,
            deps: self.deps@.map_values(|d: PostDependency| d@),
            features: features_view(self.features@),
            authors: strings_view(self.authors@),
            description: opt_view(self.description),
            documentation: opt_view(self.documentation),
            homepage: opt_view(self.homepage),
            readme: opt_view(self.readme),
            readme_file: opt_view(self.readme_file),
            keywords: strings_view(self.keywords@),
            categories: strings_view(self.categories@),
            license: opt_view(self.license),
            license_file: opt_view(self.license_file),
            links: opt_view(self.links),
            rust_version: match self.rust_version {
                Some(v) => Some(v@),
                None => None,
            },
            badges: self.badges@.map_values(|b: (String, String)| (b.0@, b.1@)),
        }
    }
}

/// An index record: one published version of one crate. Immutable except the
/// `yanked` flag.
#[derive(Debug)]
pub struct GetIndexResponse {
    pub name: CrateName,
    pub vers: Version,
    pub deps: Vec<GetDependency>,
    pub features: Vec<FeatureEntry>,
    pub links: Option<String>,
    pub cksum: String,
    pub yanked: bool,
    pub v: u32,
    pub rust_version: Option<Version>,
}

/// The abstract value of an index record.
pub struct GetIndexResponseV {
    pub name: CrateNameV,
    pub vers: Seq<char>,
    pub deps: Seq<GetDependencyV>,
    pub features: Seq<FeatureEntryV>,
    pub links: Option<Seq<char>>,
    pub cksum: Seq<char>,
    pub yanked: bool,
    pub v: u32,
    pub rust_version: Option<Seq<char>>,
}

impl View for GetIndexResponse {
    type V = GetIndexResponseV;

    open spec fn view(&self) -> GetIndexResponseV {
        GetIndexResponseV {
            name: self.name@,
            vers: self.vers@,
            deps: self.deps@.map_values(|d: GetDependency| d@),
            features: features_view(self.features@),
            links: opt_view(self.links),
            cksum: self.cksum@,
            yanked: self.yanked,
            v: self.v,
            rust_version: match self.rust_version {
                Some(v) => Some(v@),
                None => None,
            },
        }
    }
}

impl Clone for GetIndexResponse {
    /// Cloning keeps the abstract value.
    fn clone(&self) -> (r: Self)
        ensures
            r@ == self@,
    {
        let mut deps: Vec<GetDependency> = Vec::new();
        let mut i: usize = 0;
        while i < self.deps.len()
            invariant
                i <= self.deps@.len(),
                deps@.len() == i,
                forall|j: int| 0 <= j < i ==> #[trigger] deps@[j]@ == self.deps@[j]@,
            decreases self.deps@.len() - i,
        {
            deps.push(self.deps[i].clone());
            i += 1;
        }
        let r = GetIndexResponse {
            name: self.name.clone(),
            vers: self.vers.clone(),
            deps,
            features: clone_features(&self.features),
            links: clone_opt_string(&self.links),
            cksum: self.cksum.clone(),
            yanked: self.yanked,
            v: self.v,
            rust_version: clone_opt_version(&self.rust_version),
        };
        proof {
            assert(r@.deps =~= self@.deps);
            assert(r@ == self@);
        }
        r
    }
}

/// The index shape of one publish-request dependency: the requirement field
/// is renamed and the registry overrides are left absent.
pub open spec fn spec_project_dep(d: PostDependencyV) -> GetDependencyV {
    GetDependencyV {
        name: d.name,
        req: d.version_req,
        features: d.features,
        default_features: d.default_features,
        optional: d.optional,
        target: d.target,
        kind: d.kind,
        package: None,
        registry: None,
    }
}

/// The index record a publish request and a checksum project to: identifying
/// and dependency fields are kept, the record starts unyanked, and the
/// schema version is 2.
pub open spec fn spec_project(req: PostIndexRequestV, cksum: Seq<char>) -> GetIndexResponseV {
    GetIndexResponseV {
        name: req.name,
        vers: req.vers,
        deps: req.deps.map_values(|d: PostDependencyV| spec_project_dep(d)),
        features: req.features,
        links: req.links,
        cksum: cksum,
        yanked: false,
        v: 2,
        rust_version: req.rust_version,
    }
}

impl GetIndexResponse {
    /// Projects a publish request and the raw archive bytes into the index
    /// record that a successful publish writes: the checksum is the
    /// lower-case hex SHA-256 of the exact archive bytes, dependency
    /// registry overrides are dropped, and the record starts unyanked at
    /// schema version 2.
    pub fn new(index: &PostIndexRequest, body: &[u8]) -> (r: GetIndexResponse)
        ensures
            r@ == spec_project(index@, spec_cksum(body@)),
            index.name.wf() ==> r.name.wf(),
            index.vers.wf() ==> r.vers.wf(),
            features_distinct(index@.features) ==> features_distinct(r@.features),
    {
        let digest = sha256(body);
        let cksum = hex_encode(digest.as_slice());
        let mut deps: Vec<GetDependency> = Vec::new();
        let mut i: usize = 0;
        while i < index.deps.len()
            invariant
                i <= index.deps@.len(),
                deps@.len() == i,
                forall|j: int| 0 <= j < i ==> #[trigger] deps@[j]@ == spec_project_dep(
                    index.deps@[j]@,
                ),
            decreases index.deps@.len() - i,
        {
            let dep = &index.deps[i];
            deps.push(
                GetDependency {
                    name: dep.name.clone(),
                    req: dep.version_req.clone(),
                    features: clone_strings(&dep.features),
                    default_features: dep.default_features,
                    optional: dep.optional,
                    target: clone_opt_string(&dep.target),
                    kind: dep.kind,
                    package: None,
                    registry: None,
                },
            );
            i += 1;
        }
        let r = GetIndexResponse {
            name: index.name.clone(),
            vers: index.vers.clone(),
            deps,
            features: clone_features(&index.features),
            links: clone_opt_string(&index.links),
            cksum,
            yanked: false,
            v: 2,
            rust_version: clone_opt_version(&index.rust_version),
        };
        proof {
            assert(r@.deps =~= spec_project(index@, spec_cksum(body@)).deps);
            assert(r@ == spec_project(index@, spec_cksum(body@)));
        }
        r
    }
}

} // verus!
