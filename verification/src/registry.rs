use vstd::prelude::*;
use vstd::string::StringExecFns;

use vstd::string::StrSliceExecFns;

use crate::api::QueriedPackage;
use crate::api::SearchCratesQuery;
use crate::error::HttpError;
use crate::error::BAD_REQUEST;
use crate::error::INTERNAL_SERVER_ERROR;
use crate::error::NOT_FOUND;
use crate::name::name_wf;
use crate::name::CrateName;
use crate::record::features_distinct;
use crate::record::spec_cksum;
use crate::record::spec_project;
use crate::record::GetIndexResponse;
use crate::record::GetIndexResponseV;
use crate::record::PostIndexRequest;
use crate::store::ObjectStore;
use crate::store::StoredV;
use crate::store::StoredValue;
use crate::version::version_wf;
use crate::version::Version;

verus! {

/// The prefix every index record key of one crate lies under.
pub open spec fn index_prefix(n: Seq<char>) -> Seq<char> {
    ("index/"@ + n) + "/"@
}

/// The key of the index record for one version of one crate.
pub open spec fn spec_index_key(n: Seq<char>, v: Seq<char>) -> Seq<char> {
    index_prefix(n) + v
}

/// The prefix every archive key of one crate lies under.
pub open spec fn crate_prefix(n: Seq<char>) -> Seq<char> {
    ("crate/"@ + n) + "/"@
}

/// The key of the archive for one version of one crate.
pub open spec fn spec_crate_key(n: Seq<char>, v: Seq<char>) -> Seq<char> {
    crate_prefix(n) + v
}

/// The prefix every owner marker key of one crate lies under.
pub open spec fn owner_prefix(n: Seq<char>) -> Seq<char> {
    ("owner/"@ + n) + "/"@
}

/// The key of the owner marker for one login on one crate.
pub open spec fn spec_owner_key(n: Seq<char>, login: Seq<char>) -> Seq<char> {
    owner_prefix(n) + login
}

/// Whether a string is free of the key separator.
pub open spec fn no_slash(s: Seq<char>) -> bool {
    forall|i: int| 0 <= i < s.len() ==> s[i] != '/'
}

/// The shapes and lengths of the three key-layout literals.
proof fn lemma_key_literals()
    ensures
        "index/"@.len() == 6,
        "crate/"@.len() == 6,
        "owner/"@.len() == 6,
        "/"@.len() == 1,
        "index/"@[0] == 'i',
        "crate/"@[0] == 'c',
        "owner/"@[0] == 'o',
        "index/"@[5] == '/',
        "crate/"@[5] == '/',
        "owner/"@[5] == '/',
        "/"@[0] == '/',
{
    reveal_strlit("index/");
    reveal_strlit("crate/");
    reveal_strlit("owner/");
    reveal_strlit("/");
}

/// A sequence is a prefix of itself extended by anything.
proof fn lemma_prefix_of_concat(a: Seq<char>, t: Seq<char>)
    ensures
        a.is_prefix_of(a + t),
{
    assert(a =~= (a + t).subrange(0, a.len() as int));
}

/// Being a prefix is transitive.
proof fn lemma_prefix_transitive(a: Seq<char>, b: Seq<char>, c: Seq<char>)
    requires
        a.is_prefix_of(b),
        b.is_prefix_of(c),
    ensures
        a.is_prefix_of(c),
{
    assert(a =~= c.subrange(0, a.len() as int));
}

/// Two strings that begin differently bound no common extension: a key that
/// starts with the one cannot start with the other.
proof fn lemma_distinct_heads(p: Seq<char>, q: Seq<char>, k: Seq<char>)
    requires
        p.len() > 0,
        q.len() > 0,
        p[0] != q[0],
        p.is_prefix_of(k),
    ensures
        !q.is_prefix_of(k),
{
    assert(k[0] == p[0]);
}

/// The keys of one crate's records begin with the crate segment: if the key
/// layout places two slash-free segments after the same literal, equal keys
/// have equal segments and equal remainders.
proof fn lemma_key_segments(p: Seq<char>, a: Seq<char>, b: Seq<char>, v: Seq<char>)
    requires
        no_slash(a),
        no_slash(b),
        ((p + a) + "/"@).is_prefix_of(((p + b) + "/"@) + v),
    ensures
        a == b,
        v == (((p + b) + "/"@) + v).subrange(
            ((p + a) + "/"@).len() as int,
            ((((p + b) + "/"@) + v).len()) as int,
        ),
{
    reveal_strlit("/");
    let k = ((p + b) + "/"@) + v;
    let pa = (p + a) + "/"@;
    let pl = p.len() as int;
    let al = a.len() as int;
    let bl = b.len() as int;
    if al < bl {
        assert(k[pl + al] == b[al]);
        assert(pa[pl + al] == '/');
        assert(b[al] == '/');
        assert(false);
    } else if bl < al {
        assert(k[pl + bl] == '/');
        assert(pa[pl + bl] == a[bl]);
        assert(a[bl] == '/');
        assert(false);
    }
    assert(a =~= b) by {
        assert forall|i: int| 0 <= i < al implies a[i] == b[i] by {
            assert(pa[pl + i] == a[i]);
            assert(k[pl + i] == b[i]);
        }
    }
    assert(v =~= k.subrange(pa.len() as int, k.len() as int));
}

/// A well-formed version string is free of the key separator.
proof fn lemma_version_no_slash(v: Seq<char>)
    requires
        version_wf(v),
    ensures
        no_slash(v),
{
    assert forall|i: int| 0 <= i < v.len() implies v[i] != '/' by {
        assert(crate::version::semver_char(v[i]));
    }
}

/// What well-formedness of the stored contents requires of one key: a key
/// under `index/` holds the record of the crate and version the key spells,
/// a key under `crate/` holds an archive, and a key under `owner/` holds a
/// marker.
pub open spec fn stored_ok(k: Seq<char>, v: StoredV) -> bool {
    &&& "index/"@.is_prefix_of(k) ==> (v matches StoredV::Record(r) && name_wf(r.name)
        && version_wf(r.vers) && features_distinct(r.features) && k == spec_index_key(
        r.name.normalized,
        r.vers,
    ))
    &&& "crate/"@.is_prefix_of(k) ==> v is Archive
    &&& "owner/"@.is_prefix_of(k) ==> v is Marker
}

/// Well-formedness of the stored contents as a whole.
pub open spec fn registry_wf(m: Map<Seq<char>, StoredV>) -> bool {
    forall|k: Seq<char>| #[trigger] m.contains_key(k) ==> stored_ok(k, m[k])
}

/// Builds the index record key for one version of one crate.
pub fn index_key_of(name: &CrateName, vers: &Version) -> (r: String)
    ensures
        r@ == spec_index_key(name@.normalized, vers@),
{
    let mut s = "index/".to_owned();
    s.append(name.normalized());
    s.append("/");
    s.append(vers.as_str());
    s
}

/// Builds the prefix all of one crate's index record keys lie under.
pub fn index_prefix_of(name: &CrateName) -> (r: String)
    ensures
        r@ == index_prefix(name@.normalized),
{
    let mut s = "index/".to_owned();
    s.append(name.normalized());
    s.append("/");
    s
}

/// Builds the archive key for one version of one crate.
pub fn crate_key_of(name: &CrateName, vers: &Version) -> (r: String)
    ensures
        r@ == spec_crate_key(name@.normalized, vers@),
{
    let mut s = "crate/".to_owned();
    s.append(name.normalized());
    s.append("/");
    s.append(vers.as_str());
    s
}

/// Builds the prefix all of one crate's owner marker keys lie under.
pub fn owner_prefix_of(name: &CrateName) -> (r: String)
    ensures
        r@ == owner_prefix(name@.normalized),
{
    let mut s = "owner/".to_owned();
    s.append(name.normalized());
    s.append("/");
    s
}

/// Builds the owner marker key for one login on one crate.
pub fn owner_key_of(name: &CrateName, login: &str) -> (r: String)
    ensures
        r@ == spec_owner_key(name@.normalized, login@),
{
    let mut s = "owner/".to_owned();
    s.append(name.normalized());
    s.append("/");
    s.append(login);
    s
}

/// The registry engine: the index, archive and owner layout over an object
/// store, with the publish, yank, owner and listing operations.
pub struct Registry<S: ObjectStore> {
    store: S,
}

impl<S: ObjectStore> Registry<S> {
    /// The abstract contents of the underlying store.
    pub closed spec fn model(&self) -> Map<Seq<char>, StoredV> {
        self.store.model()
    }

    /// The registry is usable: the store's own invariant holds and the
    /// contents obey the key layout.
    pub closed spec fn wf(&self) -> bool {
        &&& self.store.inv()
        &&& registry_wf(self.model())
    }

    /// Wraps a store whose contents obey the key layout.
    pub fn new(store: S) -> (r: Registry<S>)
        requires
            store.inv(),
            registry_wf(store.model()),
        ensures
            r.model() == store.model(),
            r.wf(),
    {
        Registry { store }
    }

    /// Publishes one version of one crate.
    ///
    /// Fails with a duplicate-publish rejection when the index key already
    /// exists, whatever the archive bytes are, and then changes nothing. On
    /// success the projected index record is written first and the archive
    /// second, under their layout keys.
    pub fn put(&mut self, index: &PostIndexRequest, body: Vec<u8>) -> (r: Result<(), HttpError>)
        requires
            old(self).wf(),
            index.name.wf(),
            index.vers.wf(),
            features_distinct(index@.features),
        ensures
            final(self).wf(),
            old(self).model().contains_key(
                spec_index_key(index@.name.normalized, index@.vers),
            ) ==> (r matches Err(e) && e.error_type == BAD_REQUEST && e.message@
                == "already exists"@ && final(self).model() == old(self).model()),
            !old(self).model().contains_key(
                spec_index_key(index@.name.normalized, index@.vers),
            ) ==> r is Ok && final(self).model() == old(self).model().insert(
                spec_index_key(index@.name.normalized, index@.vers),
                StoredV::Record(spec_project(index@, spec_cksum(body@))),
            ).insert(
                spec_crate_key(index@.name.normalized, index@.vers),
                StoredV::Archive(body@),
            ),
    {
        let ik = index_key_of(&index.name, &index.vers);
        if self.store.head(ik.as_str()) {
            let mut verbose = index.name.original().to_owned();
            verbose.append("/");
            verbose.append(index.vers.as_str());
            verbose.append(" already exists");
            return Err(HttpError::with_verbose(
                BAD_REQUEST,
                "already exists",
                verbose.as_str(),
            ));
        }
        let record = GetIndexResponse::new(index, body.as_slice());
        let ghost m0 = self.store.model();
        let ghost ikv = ik@;
        self.store.put(ik.as_str(), StoredValue::Record(record));
        proof {
            lemma_key_literals();
            lemma_prefix_of_concat(("index/"@ + index@.name.normalized) + "/"@, index@.vers);
            lemma_prefix_of_concat("index/"@, index@.name.normalized + "/"@ + index@.vers);
            assert(("index/"@ + (index@.name.normalized + "/"@ + index@.vers)) =~= ikv);
            assert("index/"@.is_prefix_of(ikv));
            assert(stored_ok(ikv, StoredV::Record(spec_project(index@, spec_cksum(body@)))))
                by {
                lemma_distinct_heads("index/"@, "crate/"@, ikv);
                lemma_distinct_heads("index/"@, "owner/"@, ikv);
            }
            assert(registry_wf(self.store.model())) by {
                assert forall|k: Seq<char>| #[trigger] self.store.model().contains_key(
                    k,
                ) implies stored_ok(k, self.store.model()[k]) by {
                    if k != ikv {
                        assert(m0.contains_key(k) && m0[k] == self.store.model()[k]);
                    }
                }
            }
        }
        let ck = crate_key_of(&index.name, &index.vers);
        let ghost m1 = self.store.model();
        let ghost ckv = ck@;
        self.store.put(ck.as_str(), StoredValue::Archive(body));
        proof {
            lemma_key_literals();
            lemma_prefix_of_concat("crate/"@, index@.name.normalized + "/"@ + index@.vers);
            assert(("crate/"@ + (index@.name.normalized + "/"@ + index@.vers)) =~= ckv);
            assert("crate/"@.is_prefix_of(ckv));
            assert(stored_ok(ckv, self.store.model()[ckv])) by {
                lemma_distinct_heads("crate/"@, "index/"@, ckv);
                lemma_distinct_heads("crate/"@, "owner/"@, ckv);
            }
            assert(registry_wf(self.store.model())) by {
                assert forall|k: Seq<char>| #[trigger] self.store.model().contains_key(
                    k,
                ) implies stored_ok(k, self.store.model()[k]) by {
                    if k != ckv {
                        assert(m1.contains_key(k) && m1[k] == self.store.model()[k]);
                    }
                }
            }
        }
        Ok(())
    }

    /// Fetches the raw archive bytes of one version of one crate; absent
    /// archives are reported as not found.
    pub fn get_crate(&self, name: &CrateName, version: &Version) -> (r: Result<Vec<u8>, HttpError>)
        requires
            self.wf(),
            name.wf(),
            version.wf(),
        ensures
            match r {
                Ok(b) => self.model().contains_key(spec_crate_key(name@.normalized, version@))
                    && self.model()[spec_crate_key(name@.normalized, version@)]
                    == StoredV::Archive(b@),
                Err(e) => e.error_type == NOT_FOUND && !self.model().contains_key(
                    spec_crate_key(name@.normalized, version@),
                ),
            },
    {
        let ck = crate_key_of(name, version);
        match self.store.get(ck.as_str()) {
            None => Err(HttpError::new(NOT_FOUND, "no such crate archive")),
            Some(StoredValue::Archive(b)) => Ok(b),
            Some(_) => {
                proof {
                    lemma_key_literals();
                    lemma_prefix_of_concat("crate/"@, name@.normalized + "/"@ + version@);
                    assert(("crate/"@ + (name@.normalized + "/"@ + version@)) =~= ck@);
                    assert("crate/"@.is_prefix_of(ck@));
                    assert(false);
                }
                Err(HttpError::new(NOT_FOUND, "no such crate archive"))
            },
        }
    }

    /// Flips the yank flag of one published version, leaving every other
    /// field and every other key unchanged; reading a version that was never
    /// published fails as a store-side error and changes nothing.
    pub fn set_yank(&mut self, name: &CrateName, version: &Version, yanked: bool) -> (r: Result<
        (),
        HttpError,
    >)
        requires
            old(self).wf(),
            name.wf(),
            version.wf(),
        ensures
            final(self).wf(),
            match r {
                Ok(_) => {
                    let ik = spec_index_key(name@.normalized, version@);
                    &&& old(self).model().contains_key(ik)
                    &&& old(self).model()[ik] matches StoredV::Record(r0) && final(self).model()
                        == old(self).model().insert(
                        ik,
                        StoredV::Record(GetIndexResponseV { yanked, ..r0 }),
                    )
                },
                Err(e) => e.error_type == NOT_FOUND && !old(self).model().contains_key(
                    spec_index_key(name@.normalized, version@),
                ) && final(self).model() == old(self).model(),
            },
    {
        let ik = index_key_of(name, version);
        proof {
            lemma_key_literals();
            lemma_prefix_of_concat("index/"@, name@.normalized + "/"@ + version@);
            assert(("index/"@ + (name@.normalized + "/"@ + version@)) =~= ik@);
            assert("index/"@.is_prefix_of(ik@));
        }
        match self.store.get(ik.as_str()) {
            None => Err(HttpError::new(NOT_FOUND, "no such index record")),
            Some(StoredValue::Record(mut rec)) => {
                rec.yanked = yanked;
                let ghost m0 = self.store.model();
                self.store.put(ik.as_str(), StoredValue::Record(rec));
                proof {
                    assert(stored_ok(ik@, self.store.model()[ik@]));
                    assert(registry_wf(self.store.model())) by {
                        assert forall|k: Seq<char>| #[trigger] self.store.model().contains_key(
                            k,
                        ) implies stored_ok(k, self.store.model()[k]) by {
                            if k != ik@ {
                                assert(m0.contains_key(k) && m0[k] == self.store.model()[k]);
                            }
                        }
                    }
                }
                Ok(())
            },
            Some(_) => {
                proof {
                    assert(false);
                }
                Err(HttpError::new(NOT_FOUND, "no such index record"))
            },
        }
    }

    /// Lists every index record of one crate, in no guaranteed order.
    ///
    /// A crate with no record at all is reported as not found; otherwise
    /// every record under the crate's index prefix is returned, each exactly
    /// once.
    pub fn get_index(&self, name: &CrateName) -> (r: Result<Vec<GetIndexResponse>, HttpError>)
        requires
            self.wf(),
            name.wf(),
        ensures
            match r {
                Ok(recs) => {
                    &&& recs@.len() > 0
                    &&& forall|i: int|
                        0 <= i < recs@.len() ==> (#[trigger] recs@[i]@).name.normalized
                            == name@.normalized && self.model().contains_key(
                            spec_index_key(name@.normalized, recs@[i]@.vers),
                        ) && self.model()[spec_index_key(name@.normalized, recs@[i]@.vers)]
                            == StoredV::Record(recs@[i]@)
                    &&& forall|k: Seq<char>|
                        #[trigger] self.model().contains_key(k) && index_prefix(
                            name@.normalized,
                        ).is_prefix_of(k) ==> exists|i: int|
                            0 <= i < recs@.len() && spec_index_key(
                                name@.normalized,
                                recs@[i]@.vers,
                            ) == k
                    &&& forall|i: int, j: int|
                        0 <= i < j < recs@.len() ==> (#[trigger] recs@[i]@).vers != (
                        #[trigger] recs@[j]@).vers
                },
                Err(e) => e.error_type == NOT_FOUND && e.message@ == "no index"@ && forall|
                    k: Seq<char>,
                |
                    #[trigger] self.model().contains_key(k) ==> !index_prefix(
                        name@.normalized,
                    ).is_prefix_of(k),
            },
    {
        let ghost n = name@.normalized;
        let prefix = index_prefix_of(name);
        let plen = prefix.unicode_len();
        let keys = self.store.list(prefix.as_str());
        if keys.len() == 0 {
            return Err(HttpError::new(NOT_FOUND, "no index"));
        }
        let mut versions: Vec<Version> = Vec::new();
        let mut j: usize = 0;
        while j < keys.len()
            invariant
                self.wf(),
                name.wf(),
                n == name@.normalized,
                prefix@ == index_prefix(n),
                plen == prefix@.len(),
                j <= keys@.len(),
                versions@.len() == j,
                forall|i: int|
                    0 <= i < keys@.len() ==> self.model().contains_key(#[trigger] keys@[i]@)
                        && index_prefix(n).is_prefix_of(keys@[i]@),
                forall|i: int|
                    0 <= i < j ==> spec_index_key(n, (#[trigger] versions@[i])@) == keys@[i]@,
                forall|i: int| 0 <= i < j ==> (#[trigger] versions@[i]).wf(),
            decreases keys@.len() - j,
        {
            let key = &keys[j];
            let klen = key.as_str().unicode_len();
            proof {
                lemma_key_literals();
                let k = keys@[j as int]@;
                assert(self.model().contains_key(k) && index_prefix(n).is_prefix_of(k));
                lemma_prefix_of_concat("index/"@, n + "/"@);
                assert(("index/"@ + (n + "/"@)) =~= index_prefix(n));
                lemma_prefix_transitive("index/"@, index_prefix(n), k);
                assert(stored_ok(k, self.model()[k]));
                let rec = self.model()[k]->Record_0;
                lemma_version_no_slash(rec.vers);
                lemma_key_segments("index/"@, n, rec.name.normalized, rec.vers);
            }
            let suffix = key.as_str().substring_char(plen, klen);
            match Version::parse(suffix) {
                Some(v) => {
                    versions.push(v);
                },
                None => {
                    proof {
                        assert(false);
                    }
                    return Err(HttpError::new(INTERNAL_SERVER_ERROR, "invalid version key"));
                },
            }
            j += 1;
        }
        let mut recs: Vec<GetIndexResponse> = Vec::new();
        let mut j: usize = 0;
        while j < keys.len()
            invariant
                self.wf(),
                name.wf(),
                n == name@.normalized,
                j <= keys@.len(),
                versions@.len() == keys@.len(),
                recs@.len() == j,
                forall|i: int|
                    0 <= i < keys@.len() ==> self.model().contains_key(#[trigger] keys@[i]@)
                        && index_prefix(n).is_prefix_of(keys@[i]@),
                forall|i: int|
                    0 <= i < keys@.len() ==> spec_index_key(n, (#[trigger] versions@[i])@)
                        == keys@[i]@,
                forall|i: int| 0 <= i < keys@.len() ==> (#[trigger] versions@[i]).wf(),
                forall|i: int|
                    0 <= i < j ==> (#[trigger] recs@[i]@).name.normalized == n
                        && self.model().contains_key(spec_index_key(n, recs@[i]@.vers))
                        && self.model()[spec_index_key(n, recs@[i]@.vers)] == StoredV::Record(
                        recs@[i]@,
                    ) && spec_index_key(n, recs@[i]@.vers) == keys@[i]@,
            decreases keys@.len() - j,
        {
            let ik = index_key_of(name, &versions[j]);
            proof {
                lemma_key_literals();
                let k = keys@[j as int]@;
                assert(ik@ == k);
                lemma_prefix_of_concat("index/"@, n + "/"@);
                assert(("index/"@ + (n + "/"@)) =~= index_prefix(n));
                lemma_prefix_transitive("index/"@, index_prefix(n), k);
                assert(stored_ok(k, self.model()[k]));
                let rec = self.model()[k]->Record_0;
                lemma_version_no_slash(rec.vers);
                lemma_key_segments("index/"@, n, rec.name.normalized, rec.vers);
            }
            match self.store.get(ik.as_str()) {
                Some(StoredValue::Record(rec)) => {
                    recs.push(rec);
                },
                _ => {
                    proof {
                        assert(false);
                    }
                    return Err(HttpError::new(INTERNAL_SERVER_ERROR, "missing index record"));
                },
            }
            j += 1;
        }
        proof {
            assert forall|k: Seq<char>|
                #[trigger] self.model().contains_key(k) && index_prefix(n).is_prefix_of(
                    k,
                ) implies exists|i: int|
                0 <= i < recs@.len() && spec_index_key(n, recs@[i]@.vers) == k by {
                let i = choose|i: int| 0 <= i < keys@.len() && keys@[i]@ == k;
                assert(spec_index_key(n, recs@[i]@.vers) == k);
            }
            assert forall|i: int, j: int| 0 <= i < j < recs@.len() implies (
            #[trigger] recs@[i]@).vers != (#[trigger] recs@[j]@).vers by {
                assert(spec_index_key(n, recs@[i]@.vers) == keys@[i]@);
                assert(spec_index_key(n, recs@[j]@.vers) == keys@[j]@);
                if recs@[i]@.vers == recs@[j]@.vers {
                    assert(keys@[i]@ == keys@[j]@);
                }
            }
        }
        Ok(recs)
    }

    /// Lists the owner logins of one crate: the suffixes of every key under
    /// the crate's owner prefix. A crate with no owner marker at all is
    /// reported as not found.
    pub fn get_owners(&self, name: &CrateName) -> (r: Result<Vec<String>, HttpError>)
        requires
            self.wf(),
            name.wf(),
        ensures
            match r {
                Ok(logins) => {
                    &&& logins@.len() > 0
                    &&& forall|i: int|
                        0 <= i < logins@.len() ==> self.model().contains_key(
                            spec_owner_key(name@.normalized, (#[trigger] logins@[i])@),
                        )
                    &&& forall|k: Seq<char>|
                        #[trigger] self.model().contains_key(k) && owner_prefix(
                            name@.normalized,
                        ).is_prefix_of(k) ==> exists|i: int|
                            0 <= i < logins@.len() && spec_owner_key(
                                name@.normalized,
                                logins@[i]@,
                            ) == k
                    &&& forall|i: int, j: int|
                        0 <= i < j < logins@.len() ==> logins@[i]@ != logins@[j]@
                },
                Err(e) => e.error_type == NOT_FOUND && e.message@ == "no index"@ && forall|
                    k: Seq<char>,
                |
                    #[trigger] self.model().contains_key(k) ==> !owner_prefix(
                        name@.normalized,
                    ).is_prefix_of(k),
            },
    {
        let ghost n = name@.normalized;
        let prefix = owner_prefix_of(name);
        let plen = prefix.unicode_len();
        let keys = self.store.list(prefix.as_str());
        if keys.len() == 0 {
            return Err(HttpError::new(NOT_FOUND, "no index"));
        }
        let mut logins: Vec<String> = Vec::new();
        let mut j: usize = 0;
        while j < keys.len()
            invariant
                self.wf(),
                n == name@.normalized,
                prefix@ == owner_prefix(n),
                plen == prefix@.len(),
                j <= keys@.len(),
                logins@.len() == j,
                forall|i: int|
                    0 <= i < keys@.len() ==> self.model().contains_key(#[trigger] keys@[i]@)
                        && owner_prefix(n).is_prefix_of(keys@[i]@),
                forall|i: int, j2: int| 0 <= i < j2 < keys@.len() ==> keys@[i]@ != keys@[j2]@,
                forall|i: int|
                    0 <= i < j ==> spec_owner_key(n, (#[trigger] logins@[i])@) == keys@[i]@,
            decreases keys@.len() - j,
        {
            let key = &keys[j];
            let klen = key.as_str().unicode_len();
            let suffix = key.as_str().substring_char(plen, klen);
            logins.push(suffix.to_owned());
            proof {
                let k = keys@[j as int]@;
                assert(owner_prefix(n) =~= k.subrange(0, plen as int));
                assert(spec_owner_key(n, suffix@) =~= k);
            }
            j += 1;
        }
        proof {
            assert forall|k: Seq<char>|
                #[trigger] self.model().contains_key(k) && owner_prefix(n).is_prefix_of(
                    k,
                ) implies exists|i: int|
                0 <= i < logins@.len() && spec_owner_key(n, logins@[i]@) == k by {
                let i = choose|i: int| 0 <= i < keys@.len() && keys@[i]@ == k;
                assert(spec_owner_key(n, logins@[i]@) == k);
            }
            assert forall|i: int, j2: int| 0 <= i < j2 < logins@.len() implies logins@[i]@
                != logins@[j2]@ by {
                assert(spec_owner_key(n, logins@[i]@) == keys@[i]@);
                assert(spec_owner_key(n, logins@[j2]@) == keys@[j2]@);
                if logins@[i]@ == logins@[j2]@ {
                    assert(keys@[i]@ =~= keys@[j2]@);
                }
            }
        }
        Ok(logins)
    }

    /// Adds one owner marker per login, each under the crate's owner prefix.
    pub fn add_owner(&mut self, name: &CrateName, owner: Vec<String>) -> (r: Result<
        (),
        HttpError,
    >)
        requires
            old(self).wf(),
            name.wf(),
        ensures
            final(self).wf(),
            r is Ok,
            final(self).model() == add_owners_model(
                old(self).model(),
                name@.normalized,
                crate::record::strings_view(owner@),
            ),
    {
        let ghost n = name@.normalized;
        let ghost m0 = self.model();
        let ghost logins = crate::record::strings_view(owner@);
        let mut j: usize = 0;
        while j < owner.len()
            invariant
                self.wf(),
                name.wf(),
                n == name@.normalized,
                logins == crate::record::strings_view(owner@),
                j <= owner@.len(),
                self.model() == add_owners_model(m0, n, logins.subrange(0, j as int)),
            decreases owner@.len() - j,
        {
            let key = owner_key_of(name, owner[j].as_str());
            let ghost mj = self.model();
            self.store.put(key.as_str(), StoredValue::Marker);
            proof {
                lemma_key_literals();
                lemma_prefix_of_concat("owner/"@, n + "/"@ + logins[j as int]);
                assert(("owner/"@ + (n + "/"@ + logins[j as int])) =~= key@);
                assert("owner/"@.is_prefix_of(key@));
                assert(stored_ok(key@, StoredV::Marker)) by {
                    lemma_distinct_heads("owner/"@, "index/"@, key@);
                    lemma_distinct_heads("owner/"@, "crate/"@, key@);
                }
                assert(registry_wf(self.store.model())) by {
                    assert forall|k: Seq<char>| #[trigger] self.store.model().contains_key(
                        k,
                    ) implies stored_ok(k, self.store.model()[k]) by {
                        if k != key@ {
                            assert(mj.contains_key(k) && mj[k] == self.store.model()[k]);
                        }
                    }
                }
                assert(logins.subrange(0, j + 1).drop_last() =~= logins.subrange(0, j as int));
                assert(logins.subrange(0, j + 1).last() == logins[j as int]);
                assert(self.model() == add_owners_model(m0, n, logins.subrange(0, j + 1)));
            }
            j += 1;
        }
        proof {
            assert(logins.subrange(0, logins.len() as int) == logins);
        }
        Ok(())
    }

    /// Deletes one owner marker per login from under the crate's owner
    /// prefix; logins that carry no marker are already absent.
    pub fn delete_owner(&mut self, name: &CrateName, owner: Vec<String>) -> (r: Result<
        (),
        HttpError,
    >)
        requires
            old(self).wf(),
            name.wf(),
        ensures
            final(self).wf(),
            r is Ok,
            final(self).model() == del_owners_model(
                old(self).model(),
                name@.normalized,
                crate::record::strings_view(owner@),
            ),
    {
        let ghost n = name@.normalized;
        let ghost m0 = self.model();
        let ghost logins = crate::record::strings_view(owner@);
        let mut j: usize = 0;
        while j < owner.len()
            invariant
                self.wf(),
                name.wf(),
                n == name@.normalized,
                logins == crate::record::strings_view(owner@),
                j <= owner@.len(),
                self.model() == del_owners_model(m0, n, logins.subrange(0, j as int)),
            decreases owner@.len() - j,
        {
            let key = owner_key_of(name, owner[j].as_str());
            let ghost mj = self.model();
            self.store.delete(key.as_str());
            proof {
                assert(registry_wf(self.store.model())) by {
                    assert forall|k: Seq<char>| #[trigger] self.store.model().contains_key(
                        k,
                    ) implies stored_ok(k, self.store.model()[k]) by {
                        assert(mj.contains_key(k) && mj[k] == self.store.model()[k]);
                    }
                }
                assert(logins.subrange(0, j + 1).drop_last() =~= logins.subrange(0, j as int));
                assert(logins.subrange(0, j + 1).last() == logins[j as int]);
                assert(self.model() == del_owners_model(m0, n, logins.subrange(0, j + 1)));
            }
            j += 1;
        }
        proof {
            assert(logins.subrange(0, logins.len() as int) == logins);
        }
        Ok(())
    }

    /// Search is an explicit capability gap: every query fails as
    /// unsupported, and nothing is read or written.
    pub fn search(&self, query: &SearchCratesQuery) -> (r: Result<
        (Vec<QueriedPackage>, usize),
        HttpError,
    >)
        ensures
            r matches Err(e) && e.error_type == NOT_FOUND && e.message@
                == "search is unsupported"@,
    {
        let _ = query;
        Err(HttpError::new(NOT_FOUND, "search is unsupported"))
    }

    /// Probes the underlying store once; a failed probe is surfaced as a
    /// store-side error. Startup treats that as fatal.
    pub fn health_check(&self) -> (r: Result<(), HttpError>)
        requires
            self.wf(),
        ensures
            r matches Err(e) ==> e.error_type == INTERNAL_SERVER_ERROR,
    {
        if self.store.health_check() {
            Ok(())
        } else {
            Err(HttpError::new(INTERNAL_SERVER_ERROR, "store health check failed"))
        }
    }
}

/// A publish round-trips: after a successful publish of one version, the
/// archive key holds exactly the archive bytes that were published, and the
/// index key holds a record whose checksum is the lower-case hex SHA-256 of
/// those bytes. With the contracts of `put`, `get_crate` and `get_index`,
/// fetching the crate returns the archive and listing the index shows that
/// record.
pub proof fn lemma_publish_round_trip(
    m: Map<Seq<char>, StoredV>,
    req: crate::record::PostIndexRequestV,
    body: Seq<u8>,
)
    ensures
        ({
            let ik = spec_index_key(req.name.normalized, req.vers);
            let ck = spec_crate_key(req.name.normalized, req.vers);
            let m2 = m.insert(ik, StoredV::Record(spec_project(req, spec_cksum(body)))).insert(
                ck,
                StoredV::Archive(body),
            );
            &&& m2.contains_key(ck) && m2[ck] == StoredV::Archive(body)
            &&& m2.contains_key(ik)
            &&& m2[ik] matches StoredV::Record(r) && r.cksum == crate::record::hex_of(
                crate::record::sha256_of(body),
            ) && r.name == req.name && r.vers == req.vers && !r.yanked
        }),
{
    let ik = spec_index_key(req.name.normalized, req.vers);
    let ck = spec_crate_key(req.name.normalized, req.vers);
    lemma_key_literals();
    assert(ik[0] == 'i');
    assert(ck[0] == 'c');
    assert(ik != ck);
}

/// Publishing the same name and version twice conflicts: the first publish
/// leaves the index key present, so by the contract of `put` the second
/// call is rejected as a duplicate and changes nothing, whether or not the
/// new archive bytes differ.
pub proof fn lemma_republish_conflict(
    m: Map<Seq<char>, StoredV>,
    req: crate::record::PostIndexRequestV,
    body: Seq<u8>,
)
    ensures
        m.insert(
            spec_index_key(req.name.normalized, req.vers),
            StoredV::Record(spec_project(req, spec_cksum(body))),
        ).insert(
            spec_crate_key(req.name.normalized, req.vers),
            StoredV::Archive(body),
        ).contains_key(spec_index_key(req.name.normalized, req.vers)),
{
    lemma_key_literals();
    assert(spec_index_key(req.name.normalized, req.vers)[0] == 'i');
    assert(spec_crate_key(req.name.normalized, req.vers)[0] == 'c');
}

/// Yanking touches one version only: after the yank flag of one record is
/// flipped, that record keeps every other field, every other key keeps its
/// object, and no key appears or disappears; flipping the flag back to what
/// it was restores the contents exactly.
pub proof fn lemma_yank_round_trip(
    m: Map<Seq<char>, StoredV>,
    ik: Seq<char>,
    r0: GetIndexResponseV,
    y: bool,
)
    requires
        m.contains_key(ik),
        m[ik] == StoredV::Record(r0),
    ensures
        ({
            let m1 = m.insert(ik, StoredV::Record(GetIndexResponseV { yanked: y, ..r0 }));
            &&& forall|k: Seq<char>|
                #[trigger] m.contains_key(k) && k != ik ==> m1.contains_key(k) && m1[k] == m[k]
            &&& forall|k: Seq<char>| #[trigger] m1.contains_key(k) ==> m.contains_key(k)
            &&& m1[ik] matches StoredV::Record(r1) && r1.yanked == y && r1.name == r0.name
                && r1.vers == r0.vers && r1.deps == r0.deps && r1.features == r0.features
                && r1.links == r0.links && r1.cksum == r0.cksum && r1.v == r0.v
                && r1.rust_version == r0.rust_version
            &&& m1.insert(
                ik,
                StoredV::Record(GetIndexResponseV { yanked: r0.yanked, ..r0 }),
            ) == m
        }),
{
    let m1 = m.insert(ik, StoredV::Record(GetIndexResponseV { yanked: y, ..r0 }));
    assert(GetIndexResponseV { yanked: r0.yanked, ..r0 } == r0);
    assert(m1.insert(ik, StoredV::Record(r0)) =~= m);
}

/// The contents after one owner marker is added per login, in order.
pub open spec fn add_owners_model(
    m: Map<Seq<char>, StoredV>,
    n: Seq<char>,
    logins: Seq<Seq<char>>,
) -> Map<Seq<char>, StoredV>
    decreases logins.len(),
{
    if logins.len() == 0 {
        m
    } else {
        add_owners_model(m, n, logins.drop_last()).insert(
            spec_owner_key(n, logins.last()),
            StoredV::Marker,
        )
    }
}

/// The contents after one owner marker is removed per login, in order.
pub open spec fn del_owners_model(
    m: Map<Seq<char>, StoredV>,
    n: Seq<char>,
    logins: Seq<Seq<char>>,
) -> Map<Seq<char>, StoredV>
    decreases logins.len(),
{
    if logins.len() == 0 {
        m
    } else {
        del_owners_model(m, n, logins.drop_last()).remove(spec_owner_key(n, logins.last()))
    }
}

} // verus!

