use vstd::prelude::*;

use crate::name::CrateName;
use crate::record::strings_view;
use crate::store::str_eq;

verus! {

/// How many decisions one cache table holds before it evicts.
pub const CACHE_CAPACITY: usize = 1024;

/// How long one cached decision lives, in seconds.
pub const CACHE_TTL_SECS: u64 = 60;

/// An authorization predicate: the caller is one fixed user, or the caller
/// belongs to one fixed organization.
#[derive(Debug)]
pub enum Rule {
    Is { user: String },
    InOrgs { org: String },
}

/// The abstract value of a rule.
pub enum RuleV {
    Is { user: Seq<char> },
    InOrgs { org: Seq<char> },
}

impl View for Rule {
    type V = RuleV;

    open spec fn view(&self) -> RuleV {
        match self {
            Rule::Is { user } => RuleV::Is { user: user@ },
            Rule::InOrgs { org } => RuleV::InOrgs { org: org@ },
        }
    }
}

impl Clone for Rule {
    /// Cloning keeps the abstract value.
    fn clone(&self) -> (r: Self)
        ensures
            r@ == self@,
    {
        match self {
            Rule::Is { user } => Rule::Is { user: user.clone() },
            Rule::InOrgs { org } => Rule::InOrgs { org: org.clone() },
        }
    }
}

/// The pair of rules one crate is governed by.
#[derive(Debug)]
pub struct CrateRule {
    pub write: Rule,
    pub read: Rule,
}

/// The abstract value of one crate's rule pair.
pub struct CrateRuleV {
    pub write: RuleV,
    pub read: RuleV,
}

impl View for CrateRule {
    type V = CrateRuleV;

    open spec fn view(&self) -> CrateRuleV {
        CrateRuleV { write: self.write@, read: self.read@ }
    }
}

/// The contents a rule list stands for: later entries win.
pub open spec fn rules_model(s: Seq<(String, CrateRule)>) -> Map<Seq<char>, CrateRuleV>
    decreases s.len(),
{
    if s.len() == 0 {
        Map::empty()
    } else {
        rules_model(s.drop_last()).insert(s.last().0@, s.last().1@)
    }
}

/// The last entry carrying a key gives its value.
proof fn lemma_rules_lookup(s: Seq<(String, CrateRule)>, k: Seq<char>, b: int)
    requires
        0 <= b < s.len(),
        (s[b]).0@ == k,
        forall|i: int| b < i < s.len() ==> (#[trigger] s[i]).0@ != k,
    ensures
        rules_model(s).contains_key(k),
        rules_model(s)[k] == (s[b]).1@,
    decreases s.len(),
{
    if b < s.len() - 1 {
        assert((s[s.len() - 1]).0@ != k);
        lemma_rules_lookup(s.drop_last(), k, b);
    }
}

/// A key no entry carries is absent from the contents.
proof fn lemma_rules_absent(s: Seq<(String, CrateRule)>, k: Seq<char>)
    requires
        forall|i: int| 0 <= i < s.len() ==> (#[trigger] s[i]).0@ != k,
    ensures
        !rules_model(s).contains_key(k),
    decreases s.len(),
{
    if s.len() > 0 {
        assert((s[s.len() - 1]).0@ != k);
        lemma_rules_absent(s.drop_last(), k);
    }
}

/// The per-crate rule table, loaded once at process start and immutable
/// thereafter. There is no default rule: a crate absent from the table
/// admits nobody.
pub struct AuthRules {
    entries: Vec<(String, CrateRule)>,
}

impl View for AuthRules {
    type V = Map<Seq<char>, CrateRuleV>;

    closed spec fn view(&self) -> Map<Seq<char>, CrateRuleV> {
        rules_model(self.entries@)
    }
}

impl AuthRules {
    /// Builds the table from a list of per-crate rules; where a crate is
    /// listed twice, the later entry wins.
    pub fn new(entries: Vec<(String, CrateRule)>) -> (r: AuthRules)
        ensures
            r@ == rules_model(entries@),
    {
        AuthRules { entries }
    }

    /// Looks a crate up; absent crates yield nothing.
    pub fn lookup(&self, name: &str) -> (r: Option<&CrateRule>)
        ensures
            match r {
                Some(cr) => self@.contains_key(name@) && cr@ == self@[name@],
                None => !self@.contains_key(name@),
            },
    {
        let mut best: Option<usize> = None;
        let mut i: usize = 0;
        while i < self.entries.len()
            invariant
                i <= self.entries@.len(),
                match best {
                    Some(b) => b < i && (self.entries@[b as int]).0@ == name@ && forall|j: int|
                        b < j < i ==> (#[trigger] self.entries@[j]).0@ != name@,
                    None => forall|j: int|
                        0 <= j < i ==> (#[trigger] self.entries@[j]).0@ != name@,
                },
            decreases self.entries@.len() - i,
        {
            if str_eq(self.entries[i].0.as_str(), name) {
                best = Some(i);
            }
            i += 1;
        }
        match best {
            Some(b) => {
                proof {
                    lemma_rules_lookup(self.entries@, name@, b as int);
                }
                Some(&self.entries[b].1)
            },
            None => {
                proof {
                    lemma_rules_absent(self.entries@, name@);
                }
                None
            },
        }
    }
}

/// What an identity lookup produced: a failure, the caller's login, or the
/// caller's login together with an organization's member list.
#[derive(Debug)]
pub enum Evidence {
    Failed,
    Login { login: String },
    Membership { login: String, members: Vec<String> },
}

/// The abstract value of identity evidence.
pub enum EvidenceV {
    Failed,
    Login { login: Seq<char> },
    Membership { login: Seq<char>, members: Seq<Seq<char>> },
}

impl View for Evidence {
    type V = EvidenceV;

    open spec fn view(&self) -> EvidenceV {
        match self {
            Evidence::Failed => EvidenceV::Failed,
            Evidence::Login { login } => EvidenceV::Login { login: login@ },
            Evidence::Membership { login, members } => EvidenceV::Membership {
                login: login@,
                members: strings_view(members@),
            },
        }
    }
}

/// Whether evidence satisfies a rule. A failed lookup satisfies nothing,
/// and evidence of the wrong shape satisfies nothing: authorization fails
/// closed.
pub open spec fn spec_rule_allows(rule: RuleV, ev: EvidenceV) -> bool {
    match (rule, ev) {
        (RuleV::Is { user }, EvidenceV::Login { login }) => login == user,
        (RuleV::InOrgs { org }, EvidenceV::Membership { login, members }) => members.contains(
            login,
        ),
        _ => false,
    }
}

/// Whether evidence satisfies a rule; see [`spec_rule_allows`].
pub fn rule_allows(rule: &Rule, ev: &Evidence) -> (r: bool)
    ensures
        r == spec_rule_allows(rule@, ev@),
{
    match (rule, ev) {
        (Rule::Is { user }, Evidence::Login { login }) => str_eq(login.as_str(), user.as_str()),
        (Rule::InOrgs { org: _ }, Evidence::Membership { login, members }) => {
            let mut i: usize = 0;
            let mut found = false;
            while i < members.len()
                invariant
                    i <= members@.len(),
                    found == exists|j: int|
                        0 <= j < i && (#[trigger] members@[j])@ == login@,
                decreases members@.len() - i,
            {
                if str_eq(members[i].as_str(), login.as_str()) {
                    found = true;
                }
                i += 1;
            }
            proof {
                if found {
                    let j = choose|j: int| 0 <= j < members@.len() && (#[trigger] members@[j])@
                        == login@;
                    assert(strings_view(members@)[j] == login@);
                } else {
                    if strings_view(members@).contains(login@) {
                        let j = choose|j: int|
                            0 <= j < strings_view(members@).len() && strings_view(members@)[j]
                                == login@;
                        assert((members@[j])@ == login@);
                    }
                }
            }
            found
        },
        _ => false,
    }
}

/// Which operation a decision governs.
#[derive(Clone, Copy, Debug, PartialEq, Eq, Structural)]
pub enum AccessKind {
    Read,
    Write,
}

/// The rule that governs one operation on one crate.
pub open spec fn spec_rule_for(cr: CrateRuleV, kind: AccessKind) -> RuleV {
    match kind {
        AccessKind::Read => cr.read,
        AccessKind::Write => cr.write,
    }
}

/// The authorization decision for one crate, operation and piece of
/// evidence: denied when the crate has no rule, denied when the lookup
/// failed, and allowed exactly when the evidence satisfies the governing
/// rule.
pub open spec fn spec_decision(
    rules: Map<Seq<char>, CrateRuleV>,
    name: Seq<char>,
    kind: AccessKind,
    ev: EvidenceV,
) -> bool {
    rules.contains_key(name) && spec_rule_allows(spec_rule_for(rules[name], kind), ev)
}

/// One cached decision.
struct CacheEntry {
    name: String,
    token: String,
    decision: bool,
    at: u64,
}

/// The abstract value of one cached decision: what was decided and when it
/// was recorded.
pub struct CacheEntryV {
    pub decision: bool,
    pub at: u64,
}

/// The contents a cache entry list stands for.
spec fn cache_model(s: Seq<CacheEntry>) -> Map<(Seq<char>, Seq<char>), CacheEntryV>
    decreases s.len(),
{
    if s.len() == 0 {
        Map::empty()
    } else {
        cache_model(s.drop_last()).insert(
            (s.last().name@, s.last().token@),
            CacheEntryV { decision: s.last().decision, at: s.last().at },
        )
    }
}

/// Whether the entries of a cache carry pairwise distinct keys.
spec fn cache_distinct(s: Seq<CacheEntry>) -> bool {
    forall|i: int, j: int|
        0 <= i < j < s.len() ==> ((#[trigger] s[i]).name@, s[i].token@) != ((
        #[trigger] s[j]).name@, s[j].token@)
}

/// A key is in the contents exactly when some entry carries it.
proof fn lemma_cache_contains(s: Seq<CacheEntry>, k: (Seq<char>, Seq<char>))
    ensures
        cache_model(s).contains_key(k) <==> exists|i: int|
            0 <= i < s.len() && ((#[trigger] s[i]).name@, s[i].token@) == k,
    decreases s.len(),
{
    if s.len() > 0 {
        lemma_cache_contains(s.drop_last(), k);
        if cache_model(s).contains_key(k) {
            if k == (s.last().name@, s.last().token@) {
                assert(((s[s.len() - 1]).name@, (s[s.len() - 1]).token@) == k);
            } else {
                let i = choose|i: int|
                    0 <= i < s.drop_last().len() && ((#[trigger] s.drop_last()[i]).name@,
                    s.drop_last()[i].token@) == k;
                assert(((s[i]).name@, (s[i]).token@) == k);
            }
        }
        if exists|i: int| 0 <= i < s.len() && ((#[trigger] s[i]).name@, s[i].token@) == k {
            let i = choose|i: int| 0 <= i < s.len() && ((#[trigger] s[i]).name@, s[i].token@) == k;
            if i < s.len() - 1 {
                assert(((s.drop_last()[i]).name@, (s.drop_last()[i]).token@) == k);
            }
        }
    }
}

/// Dropping the last entry keeps keys pairwise distinct.
proof fn lemma_cache_distinct_drop_last(s: Seq<CacheEntry>)
    requires
        cache_distinct(s),
        s.len() > 0,
    ensures
        cache_distinct(s.drop_last()),
{
    assert forall|a: int, b: int| 0 <= a < b < s.drop_last().len() implies ((
    #[trigger] s.drop_last()[a]).name@, s.drop_last()[a].token@) != ((#[trigger] s.drop_last()[b]).name@,
    s.drop_last()[b].token@) by {
        assert(((s[a]).name@, (s[a]).token@) != ((s[b]).name@, (s[b]).token@));
    }
}

/// With distinct keys, the entry carrying a key gives its value.
proof fn lemma_cache_value(s: Seq<CacheEntry>, i: int)
    requires
        cache_distinct(s),
        0 <= i < s.len(),
    ensures
        cache_model(s).contains_key(((s[i]).name@, (s[i]).token@)),
        cache_model(s)[((s[i]).name@, (s[i]).token@)] == (CacheEntryV {
            decision: (s[i]).decision,
            at: (s[i]).at,
        }),
    decreases s.len(),
{
    if i == s.len() - 1 {
    } else {
        lemma_cache_distinct_drop_last(s);
        lemma_cache_value(s.drop_last(), i);
        assert(((s[i]).name@, (s[i]).token@) != (s.last().name@, s.last().token@));
    }
}

/// Removing the entry that carries a key removes exactly that key from the
/// contents.
proof fn lemma_cache_remove(s: Seq<CacheEntry>, i: int)
    requires
        cache_distinct(s),
        0 <= i < s.len(),
    ensures
        cache_model(s.remove(i)) == cache_model(s).remove(((s[i]).name@, (s[i]).token@)),
    decreases s.len(),
{
    let k = ((s[i]).name@, (s[i]).token@);
    if i == s.len() - 1 {
        assert(s.remove(i) =~= s.drop_last());
        lemma_cache_contains(s.drop_last(), k);
        assert(forall|j: int|
            0 <= j < s.drop_last().len() ==> ((#[trigger] s.drop_last()[j]).name@,
            s.drop_last()[j].token@) != k);
        assert(!cache_model(s.drop_last()).contains_key(k));
        assert(cache_model(s.drop_last()) =~= cache_model(s).remove(k));
    } else {
        lemma_cache_distinct_drop_last(s);
        lemma_cache_remove(s.drop_last(), i);
        assert(s.remove(i).drop_last() =~= s.drop_last().remove(i));
        assert(s.remove(i).last() == s.last());
        assert(k != (s.last().name@, s.last().token@));
        assert(cache_model(s.drop_last()).remove(k).insert(
            (s.last().name@, s.last().token@),
            CacheEntryV { decision: s.last().decision, at: s.last().at },
        ) =~= cache_model(s.drop_last()).insert(
            (s.last().name@, s.last().token@),
            CacheEntryV { decision: s.last().decision, at: s.last().at },
        ).remove(k));
    }
}

/// Appending an entry adds exactly its key to the contents.
proof fn lemma_cache_push(s: Seq<CacheEntry>, e: CacheEntry)
    ensures
        cache_model(s.push(e)) == cache_model(s).insert(
            (e.name@, e.token@),
            CacheEntryV { decision: e.decision, at: e.at },
        ),
{
    assert(s.push(e).drop_last() =~= s);
    assert(s.push(e).last() == e);
}

/// What a cache lookup at one instant yields: the recorded decision while
/// the entry is younger than its lifetime, nothing otherwise.
pub open spec fn spec_cache_lookup(
    c: Map<(Seq<char>, Seq<char>), CacheEntryV>,
    k: (Seq<char>, Seq<char>),
    now: u64,
) -> Option<bool> {
    if c.contains_key(k) && now < c[k].at + CACHE_TTL_SECS {
        Some(c[k].decision)
    } else {
        None
    }
}

/// A capacity-bounded decision cache with a fixed lifetime per entry.
/// Expiry is enforced lazily on read; under capacity pressure the least
/// recently used entry is evicted.
pub struct TtlCache {
    entries: Vec<CacheEntry>,
}

impl View for TtlCache {
    type V = Map<(Seq<char>, Seq<char>), CacheEntryV>;

    closed spec fn view(&self) -> Map<(Seq<char>, Seq<char>), CacheEntryV> {
        cache_model(self.entries@)
    }
}

impl TtlCache {
    /// The entries carry pairwise distinct keys and never exceed the
    /// capacity.
    pub closed spec fn wf(&self) -> bool {
        &&& cache_distinct(self.entries@)
        &&& self.entries@.len() <= CACHE_CAPACITY
    }

    /// An empty cache.
    pub fn new() -> (r: TtlCache)
        ensures
            r@ == Map::<(Seq<char>, Seq<char>), CacheEntryV>::empty(),
            r.wf(),
    {
        TtlCache { entries: Vec::new() }
    }

    /// The position of the entry carrying a key, if any.
    fn find(&self, name: &str, token: &str) -> (r: Option<usize>)
        ensures
            match r {
                Some(i) => i < self.entries@.len() && (self.entries@[i as int]).name@ == name@
                    && (self.entries@[i as int]).token@ == token@,
                None => forall|i: int|
                    0 <= i < self.entries@.len() ==> ((#[trigger] self.entries@[i]).name@,
                    self.entries@[i].token@) != (name@, token@),
            },
    {
        let mut i: usize = 0;
        while i < self.entries.len()
            invariant
                i <= self.entries@.len(),
                forall|j: int|
                    0 <= j < i ==> ((#[trigger] self.entries@[j]).name@, self.entries@[j].token@)
                        != (name@, token@),
            decreases self.entries@.len() - i,
        {
            if str_eq(self.entries[i].name.as_str(), name) && str_eq(
                self.entries[i].token.as_str(),
                token,
            ) {
                return Some(i);
            }
            i += 1;
        }
        None
    }

    /// Looks a decision up at one instant. A fresh entry answers and is
    /// touched as most recently used; an entry past its lifetime is dropped
    /// and does not answer.
    pub fn lookup(&mut self, name: &str, token: &str, now: u64) -> (r: Option<bool>)
        requires
            old(self).wf(),
        ensures
            final(self).wf(),
            r == spec_cache_lookup(old(self)@, (name@, token@), now),
            r is Some ==> final(self)@ == old(self)@,
            r is None ==> final(self)@ == old(self)@.remove((name@, token@)),
    {
        let ghost k = (name@, token@);
        proof {
            lemma_cache_contains(self.entries@, k);
        }
        match self.find(name, token) {
            None => {
                proof {
                    assert(!old(self)@.contains_key(k));
                    assert(old(self)@ =~= old(self)@.remove(k));
                }
                None
            },
            Some(i) => {
                proof {
                    lemma_cache_value(self.entries@, i as int);
                    lemma_cache_remove(self.entries@, i as int);
                }
                let e = &self.entries[i];
                let fresh = if now >= e.at {
                    now - e.at < CACHE_TTL_SECS
                } else {
                    true
                };
                let decision = e.decision;
                let at = e.at;
                let ghost before = self.entries@;
                let name_copy = e.name.clone();
                let token_copy = e.token.clone();
                self.entries.remove(i);
                proof {
                    lemma_distinct_after_remove(before, i as int);
                    lemma_cache_contains(self.entries@, k);
                }
                if fresh {
                    let ghost mid = self.entries@;
                    self.entries.push(
                        CacheEntry { name: name_copy, token: token_copy, decision, at },
                    );
                    proof {
                        lemma_cache_push(mid, self.entries@.last());
                        assert(self.entries@ =~= mid.push(self.entries@.last()));
                        assert(self@ =~= old(self)@);
                        assert forall|a: int, b: int|
                            0 <= a < b < self.entries@.len() implies ((
                        #[trigger] self.entries@[a]).name@, self.entries@[a].token@) != ((
                        #[trigger] self.entries@[b]).name@, self.entries@[b].token@) by {
                            if b == self.entries@.len() - 1 {
                                lemma_cache_contains(mid, k);
                                assert(!cache_model(mid).contains_key(k));
                                assert(((mid[a]).name@, (mid[a]).token@) != k);
                            }
                        }
                    }
                    Some(decision)
                } else {
                    None
                }
            },
        }
    }

    /// Records a decision at one instant, replacing any entry of the same
    /// key; when the cache is full a new key evicts the least recently used
    /// entry.
    pub fn insert(&mut self, name: &str, token: &str, decision: bool, now: u64)
        requires
            old(self).wf(),
        ensures
            final(self).wf(),
            final(self)@.contains_key((name@, token@)),
            final(self)@[(name@, token@)] == (CacheEntryV { decision, at: now }),
            old(self)@.contains_key((name@, token@)) ==> final(self)@ == old(self)@.insert(
                (name@, token@),
                (CacheEntryV { decision, at: now }),
            ),
            !old(self)@.contains_key((name@, token@)) ==> (final(self)@ == old(self)@.insert(
                (name@, token@),
                (CacheEntryV { decision, at: now }),
            ) || (exists|ek: (Seq<char>, Seq<char>)|
                old(self)@.contains_key(ek) && ek != (name@, token@) && final(self)@ == old(
                    self,
                )@.remove(ek).insert((name@, token@), (CacheEntryV { decision, at: now })))),
    {
        let ghost k = (name@, token@);
        proof {
            lemma_cache_contains(self.entries@, k);
        }
        let ghost m0 = self@;
        let mut removed_existing = false;
        match self.find(name, token) {
            Some(i) => {
                proof {
                    lemma_cache_remove(self.entries@, i as int);
                }
                let ghost before = self.entries@;
                self.entries.remove(i);
                removed_existing = true;
                proof {
                    lemma_distinct_after_remove(before, i as int);
                    lemma_cache_contains(self.entries@, k);
                }
            },
            None => {},
        }
        let ghost evicted: (Seq<char>, Seq<char>) = (
            (self.entries@[0]).name@,
            (self.entries@[0]).token@,
        );
        let mut did_evict = false;
        if self.entries.len() >= CACHE_CAPACITY {
            proof {
                lemma_cache_remove(self.entries@, 0);
            }
            let ghost before = self.entries@;
            self.entries.remove(0);
            did_evict = true;
            proof {
                lemma_distinct_after_remove(before, 0);
                lemma_cache_contains(self.entries@, k);
                lemma_cache_contains(before, evicted);
                lemma_cache_contains(self.entries@, evicted);
            }
        }
        let ghost mid = self.entries@;
        self.entries.push(
            CacheEntry { name: name.to_owned(), token: token.to_owned(), decision, at: now },
        );
        proof {
            lemma_cache_push(mid, self.entries@.last());
            assert(self.entries@ =~= mid.push(self.entries@.last()));
            assert forall|a: int, b: int|
                0 <= a < b < self.entries@.len() implies ((#[trigger] self.entries@[a]).name@,
            self.entries@[a].token@) != ((#[trigger] self.entries@[b]).name@,
            self.entries@[b].token@) by {
                if b == self.entries@.len() - 1 {
                    lemma_cache_contains(mid, k);
                    assert(!cache_model(mid).contains_key(k));
                    assert(((mid[a]).name@, (mid[a]).token@) != k);
                }
            }
            if removed_existing {
                if did_evict {
                    assert(false);
                }
                assert(self@ =~= m0.insert(k, CacheEntryV { decision, at: now }));
            } else if did_evict {
                assert(m0.contains_key(evicted));
                assert(evicted != k);
                assert(self@ =~= m0.remove(evicted).insert(k, CacheEntryV { decision, at: now }));
            } else {
                assert(self@ =~= m0.insert(k, CacheEntryV { decision, at: now }));
            }
        }
    }
}

/// What recording a decision leaves of a cache: the key carries the fresh
/// decision, no key appears from nowhere, every surviving key keeps its
/// entry, and at most one other key was evicted.
pub open spec fn spec_recorded(
    c0: Map<(Seq<char>, Seq<char>), CacheEntryV>,
    c1: Map<(Seq<char>, Seq<char>), CacheEntryV>,
    k: (Seq<char>, Seq<char>),
    d: bool,
    now: u64,
) -> bool {
    &&& c1.contains_key(k) && c1[k] == (CacheEntryV { decision: d, at: now })
    &&& forall|k2: (Seq<char>, Seq<char>)|
        #[trigger] c1.contains_key(k2) && k2 != k ==> c0.contains_key(k2) && c1[k2] == c0[k2]
    &&& forall|k2: (Seq<char>, Seq<char>), k3: (Seq<char>, Seq<char>)|
        #[trigger] c0.contains_key(k2) && #[trigger] c0.contains_key(k3) && k2 != k && k3 != k
            && !c1.contains_key(k2) && !c1.contains_key(k3) ==> k2 == k3
}

/// An insertion, possibly after the stale entry of the same key was
/// dropped, records the decision in the sense of [`spec_recorded`].
proof fn lemma_recorded_from_insert(
    c0: Map<(Seq<char>, Seq<char>), CacheEntryV>,
    cm: Map<(Seq<char>, Seq<char>), CacheEntryV>,
    c1: Map<(Seq<char>, Seq<char>), CacheEntryV>,
    k: (Seq<char>, Seq<char>),
    d: bool,
    now: u64,
)
    requires
        cm == c0 || cm == c0.remove(k),
        c1 == cm.insert(k, (CacheEntryV { decision: d, at: now })) || (exists|
            ek: (Seq<char>, Seq<char>),
        |
            cm.contains_key(ek) && ek != k && c1 == cm.remove(ek).insert(
                k,
                (CacheEntryV { decision: d, at: now }),
            )),
    ensures
        spec_recorded(c0, c1, k, d, now),
{
    if c1 == cm.insert(k, (CacheEntryV { decision: d, at: now })) {
    } else {
        let ek = choose|ek: (Seq<char>, Seq<char>)|
            cm.contains_key(ek) && ek != k && c1 == cm.remove(ek).insert(
                k,
                (CacheEntryV { decision: d, at: now }),
            );
        assert(c1.contains_key(k));
        assert forall|k2: (Seq<char>, Seq<char>), k3: (Seq<char>, Seq<char>)|
            #[trigger] c0.contains_key(k2) && #[trigger] c0.contains_key(k3) && k2 != k && k3
                != k && !c1.contains_key(k2) && !c1.contains_key(k3) implies k2 == k3 by {
            assert(k2 == ek && k3 == ek);
        }
    }
}

/// The observable lifetime of one cached decision: within the window the
/// cache answers with the recorded decision and forces no new identity
/// lookup; past the window it no longer answers.
pub proof fn lemma_ttl_window(
    c: Map<(Seq<char>, Seq<char>), CacheEntryV>,
    k: (Seq<char>, Seq<char>),
    d: bool,
    t: u64,
    t2: u64,
)
    requires
        c.contains_key(k),
        c[k] == (CacheEntryV { decision: d, at: t }),
    ensures
        t2 < t + CACHE_TTL_SECS ==> spec_cache_lookup(c, k, t2) == Some(d),
        t2 >= t + CACHE_TTL_SECS ==> spec_cache_lookup(c, k, t2) == None::<bool>,
{
}

/// A decision that was just recorded governs the window that follows:
/// until its lifetime passes, a check of the same crate, token and kind is
/// answered from the cache with exactly that decision, so no new identity
/// lookup is forced; once the lifetime has passed the cache no longer
/// answers and a new lookup occurs.
pub proof fn lemma_recorded_decision_window(
    c0: Map<(Seq<char>, Seq<char>), CacheEntryV>,
    c1: Map<(Seq<char>, Seq<char>), CacheEntryV>,
    k: (Seq<char>, Seq<char>),
    d: bool,
    t: u64,
    t2: u64,
)
    requires
        spec_recorded(c0, c1, k, d, t),
    ensures
        t2 < t + CACHE_TTL_SECS ==> spec_cache_lookup(c1, k, t2) == Some(d),
        t2 >= t + CACHE_TTL_SECS ==> spec_cache_lookup(c1, k, t2) == None::<bool>,
{
    lemma_ttl_window(c1, k, d, t, t2);
}

/// Authorization fails closed: a crate without a rule admits nobody, failed
/// identity evidence admits nobody, and otherwise admission is exactly the
/// governing rule's verdict on the evidence.
pub proof fn lemma_fail_closed(
    rules: Map<Seq<char>, CrateRuleV>,
    name: Seq<char>,
    kind: AccessKind,
    ev: EvidenceV,
)
    ensures
        !rules.contains_key(name) ==> !spec_decision(rules, name, kind, ev),
        ev == EvidenceV::Failed ==> !spec_decision(rules, name, kind, ev),
        rules.contains_key(name) ==> spec_decision(rules, name, kind, ev) == spec_rule_allows(
            spec_rule_for(rules[name], kind),
            ev,
        ),
{
}

/// What a permission check can ask of its caller: the decision is already
/// made, or identity evidence for one rule must be gathered first.
#[derive(Debug)]
pub enum CheckOutcome {
    Decided(bool),
    NeedsEvidence(Rule),
}

/// The policy engine: the immutable rule table and one bounded decision
/// cache per operation kind.
pub struct AuthPolicy {
    rules: AuthRules,
    read_cache: TtlCache,
    write_cache: TtlCache,
}

impl AuthPolicy {
    /// The rule table.
    pub closed spec fn rules_view(&self) -> Map<Seq<char>, CrateRuleV> {
        self.rules@
    }

    /// The decision cache of one operation kind.
    pub closed spec fn cache_view(&self, kind: AccessKind) -> Map<
        (Seq<char>, Seq<char>),
        CacheEntryV,
    > {
        match kind {
            AccessKind::Read => self.read_cache@,
            AccessKind::Write => self.write_cache@,
        }
    }

    /// Both caches are usable.
    pub closed spec fn wf(&self) -> bool {
        &&& self.read_cache.wf()
        &&& self.write_cache.wf()
    }

    /// Builds the policy engine over a rule table, with both caches empty.
    pub fn new_from_config(rules: AuthRules) -> (r: AuthPolicy)
        ensures
            r.wf(),
            r.rules_view() == rules@,
            r.cache_view(AccessKind::Read) == Map::<(Seq<char>, Seq<char>), CacheEntryV>::empty(),
            r.cache_view(AccessKind::Write) == Map::<(Seq<char>, Seq<char>), CacheEntryV>::empty(),
    {
        AuthPolicy { rules, read_cache: TtlCache::new(), write_cache: TtlCache::new() }
    }

    /// Looks the cache of one kind up; the other kind's cache is untouched.
    fn cache_lookup(&mut self, kind: AccessKind, name: &str, token: &str, now: u64) -> (r: Option<
        bool,
    >)
        requires
            old(self).wf(),
        ensures
            final(self).wf(),
            final(self).rules_view() == old(self).rules_view(),
            r == spec_cache_lookup(old(self).cache_view(kind), (name@, token@), now),
            r is Some ==> final(self).cache_view(kind) == old(self).cache_view(kind),
            r is None ==> final(self).cache_view(kind) == old(self).cache_view(kind).remove(
                (name@, token@),
            ),
            kind == AccessKind::Read ==> final(self).cache_view(AccessKind::Write) == old(
                self,
            ).cache_view(AccessKind::Write),
            kind == AccessKind::Write ==> final(self).cache_view(AccessKind::Read) == old(
                self,
            ).cache_view(AccessKind::Read),
    {
        match kind {
            AccessKind::Read => self.read_cache.lookup(name, token, now),
            AccessKind::Write => self.write_cache.lookup(name, token, now),
        }
    }

    /// Records in the cache of one kind; the other kind's cache is
    /// untouched.
    fn cache_insert(&mut self, kind: AccessKind, name: &str, token: &str, decision: bool, now: u64)
        requires
            old(self).wf(),
        ensures
            final(self).wf(),
            final(self).rules_view() == old(self).rules_view(),
            final(self).cache_view(kind).contains_key((name@, token@)),
            final(self).cache_view(kind)[(name@, token@)] == (CacheEntryV { decision, at: now }),
            final(self).cache_view(kind) == old(self).cache_view(kind).insert(
                (name@, token@),
                (CacheEntryV { decision, at: now }),
            ) || (exists|ek: (Seq<char>, Seq<char>)|
                old(self).cache_view(kind).contains_key(ek) && ek != (name@, token@)
                    && final(self).cache_view(kind) == old(self).cache_view(kind).remove(
                    ek,
                ).insert((name@, token@), (CacheEntryV { decision, at: now }))),
            kind == AccessKind::Read ==> final(self).cache_view(AccessKind::Write) == old(
                self,
            ).cache_view(AccessKind::Write),
            kind == AccessKind::Write ==> final(self).cache_view(AccessKind::Read) == old(
                self,
            ).cache_view(AccessKind::Read),
    {
        match kind {
            AccessKind::Read => self.read_cache.insert(name, token, decision, now),
            AccessKind::Write => self.write_cache.insert(name, token, decision, now),
        }
    }

    /// Starts a permission check for one operation on one crate.
    ///
    /// A decision cached within the last minute answers at once. A crate
    /// without a rule is denied at once and the denial is cached. Otherwise
    /// the caller must resolve identity evidence for the governing rule and
    /// settle the check.
    pub fn begin_check(&mut self, kind: AccessKind, name: &CrateName, token: &str, now: u64) -> (r:
        CheckOutcome)
        requires
            old(self).wf(),
        ensures
            final(self).wf(),
            final(self).rules_view() == old(self).rules_view(),
            kind == AccessKind::Read ==> final(self).cache_view(AccessKind::Write) == old(
                self,
            ).cache_view(AccessKind::Write),
            kind == AccessKind::Write ==> final(self).cache_view(AccessKind::Read) == old(
                self,
            ).cache_view(AccessKind::Read),
            spec_cache_lookup(old(self).cache_view(kind), (name@.normalized, token@), now)
                matches Some(d) ==> (r == CheckOutcome::Decided(d) && final(self).cache_view(kind)
                == old(self).cache_view(kind)),
            spec_cache_lookup(old(self).cache_view(kind), (name@.normalized, token@), now)
                is None && !old(self).rules_view().contains_key(name@.normalized) ==> (r
                == CheckOutcome::Decided(false) && spec_recorded(
                old(self).cache_view(kind),
                final(self).cache_view(kind),
                (name@.normalized, token@),
                false,
                now,
            )),
            spec_cache_lookup(old(self).cache_view(kind), (name@.normalized, token@), now)
                is None && old(self).rules_view().contains_key(name@.normalized) ==> (r
                matches CheckOutcome::NeedsEvidence(rule) && rule@ == spec_rule_for(
                old(self).rules_view()[name@.normalized],
                kind,
            ) && (final(self).cache_view(kind) == old(self).cache_view(kind)
                || final(self).cache_view(kind) == old(self).cache_view(kind).remove(
                (name@.normalized, token@),
            ))),
    {
        let ghost c0 = self.cache_view(kind);
        let ghost k = (name@.normalized, token@);
        let cached = self.cache_lookup(kind, name.normalized(), token, now);
        match cached {
            Some(d) => CheckOutcome::Decided(d),
            None => {
                let ghost cm = self.cache_view(kind);
                match self.rules.lookup(name.normalized()) {
                    None => {
                        self.cache_insert(kind, name.normalized(), token, false, now);
                        proof {
                            lemma_recorded_from_insert(
                                c0,
                                cm,
                                self.cache_view(kind),
                                k,
                                false,
                                now,
                            );
                        }
                        CheckOutcome::Decided(false)
                    },
                    Some(cr) => {
                        let rule = match kind {
                            AccessKind::Read => cr.read.clone(),
                            AccessKind::Write => cr.write.clone(),
                        };
                        CheckOutcome::NeedsEvidence(rule)
                    },
                }
            },
        }
    }

    /// Settles a permission check with the identity evidence gathered for
    /// it: the decision is computed fail-closed, cached for the next
    /// minute, and returned.
    pub fn settle_check(
        &mut self,
        kind: AccessKind,
        name: &CrateName,
        token: &str,
        now: u64,
        ev: &Evidence,
    ) -> (r: bool)
        requires
            old(self).wf(),
        ensures
            final(self).wf(),
            final(self).rules_view() == old(self).rules_view(),
            r == spec_decision(old(self).rules_view(), name@.normalized, kind, ev@),
            spec_recorded(
                old(self).cache_view(kind),
                final(self).cache_view(kind),
                (name@.normalized, token@),
                r,
                now,
            ),
            kind == AccessKind::Read ==> final(self).cache_view(AccessKind::Write) == old(
                self,
            ).cache_view(AccessKind::Write),
            kind == AccessKind::Write ==> final(self).cache_view(AccessKind::Read) == old(
                self,
            ).cache_view(AccessKind::Read),
    {
        let ghost c0 = self.cache_view(kind);
        let ghost k = (name@.normalized, token@);
        let decision = match self.rules.lookup(name.normalized()) {
            None => false,
            Some(cr) => {
                let rule = match kind {
                    AccessKind::Read => &cr.read,
                    AccessKind::Write => &cr.write,
                };
                rule_allows(rule, ev)
            },
        };
        self.cache_insert(kind, name.normalized(), token, decision, now);
        proof {
            lemma_recorded_from_insert(c0, c0, self.cache_view(kind), k, decision, now);
        }
        decision
    }
}

/// Removing an entry keeps keys pairwise distinct.
proof fn lemma_distinct_after_remove(s: Seq<CacheEntry>, i: int)
    requires
        cache_distinct(s),
        0 <= i < s.len(),
    ensures
        cache_distinct(s.remove(i)),
{
    let t = s.remove(i);
    assert forall|a: int, b: int| 0 <= a < b < t.len() implies ((#[trigger] t[a]).name@,
    t[a].token@) != ((#[trigger] t[b]).name@, t[b].token@) by {
        if b < i {
        } else if a < i {
            assert(t[b] == s[b + 1]);
        } else {
            assert(t[a] == s[a + 1]);
            assert(t[b] == s[b + 1]);
        }
    }
}

} // verus!
