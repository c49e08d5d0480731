//! The registry's stored state: the contract version, the configuration, the
//! issuer allowlist and the certificate records, each collection ascending by
//! the bytes of its key.
use vstd::prelude::*;
use vstd::utf8::*;
use cosmwasm_std::Timestamp;
use crate::order::{
    bytes_lt, lemma_adjacent_sorted, count_below, lemma_count_below_unique, lemma_insert_sorted, lemma_remove_sorted,
    lemma_sorted_unique, lex_lt, strictly_sorted,
};
use crate::text::{valid_cert_id, valid_content_hash};

verus! {

broadcast use encode_utf8_decode_utf8;

/// The owner and the number of certificates issued so far.
#[derive(Debug)]
pub struct Config {
    pub owner: String,
    pub total_issued: u64,
}

/// The name and version of the contract that wrote the state.
#[derive(Debug)]
pub struct ContractVersion {
    pub contract: String,
    pub version: String,
}

/// A certificate record. Revocation marks it; it is never removed.
#[derive(Debug, PartialEq, Eq)]
pub struct Certificate {
    pub cert_id: String,
    pub institution_id: u64,
    pub recipient_id: u64,
    pub template_id: u64,
    pub content_hash: String,
    pub metadata_uri: Option<String>,
    pub issued_at: Timestamp,
    pub issued_by: String,
    pub revoked: bool,
    pub revoked_at: Option<Timestamp>,
    pub revoke_reason: Option<String>,
}

/// A copy of an optional string.
pub fn clone_opt_string(s: &Option<String>) -> (r: Option<String>)
    ensures
        r == *s,
{
    match s {
        Some(v) => Some(v.clone()),
        None => None,
    }
}

impl Clone for Certificate {
    fn clone(&self) -> (r: Self)
        ensures
            r == *self,
    {
        Certificate {
            cert_id: self.cert_id.clone(),
            institution_id: self.institution_id,
            recipient_id: self.recipient_id,
            template_id: self.template_id,
            content_hash: self.content_hash.clone(),
            metadata_uri: clone_opt_string(&self.metadata_uri),
            issued_at: self.issued_at,
            issued_by: self.issued_by.clone(),
            revoked: self.revoked,
            revoked_at: self.revoked_at,
            revoke_reason: clone_opt_string(&self.revoke_reason),
        }
    }
}

/// The storage key of an address or id: its UTF-8 bytes.
pub open spec fn str_key(s: Seq<char>) -> Seq<u8> {
    encode_utf8(s)
}

/// The keys of the issuer allowlist, in order.
pub open spec fn addr_keys(s: Seq<Seq<char>>) -> Seq<Seq<u8>> {
    s.map_values(|a: Seq<char>| str_key(a))
}

/// The storage key of a certificate: the bytes of its id.
pub open spec fn cert_key(c: Certificate) -> Seq<u8> {
    str_key(c.cert_id@)
}

/// The keys of the certificate records, in order.
pub open spec fn cert_keys(s: Seq<Certificate>) -> Seq<Seq<u8>> {
    s.map_values(|c: Certificate| cert_key(c))
}

/// The allowlist with `a` in it, at its place in key order.
pub open spec fn set_insert(s: Seq<Seq<char>>, a: Seq<char>) -> Seq<Seq<char>> {
    if s.contains(a) {
        s
    } else {
        s.insert(count_below(addr_keys(s), str_key(a)) as int, a)
    }
}

/// The allowlist without `a`.
pub open spec fn set_remove(s: Seq<Seq<char>>, a: Seq<char>) -> Seq<Seq<char>> {
    if s.contains(a) {
        s.remove(s.index_of(a))
    } else {
        s
    }
}

/// Some record has this id.
pub open spec fn has_cert(s: Seq<Certificate>, id: Seq<char>) -> bool {
    exists|i: int| 0 <= i < s.len() && (#[trigger] s[i]).cert_id@ == id
}

/// The position of the record with this id.
pub open spec fn cert_index(s: Seq<Certificate>, id: Seq<char>) -> int {
    choose|i: int| 0 <= i < s.len() && (#[trigger] s[i]).cert_id@ == id
}

/// The records with `c` added at its place in key order.
pub open spec fn insert_cert(s: Seq<Certificate>, c: Certificate) -> Seq<Certificate> {
    s.insert(count_below(cert_keys(s), cert_key(c)) as int, c)
}

/// What the registry's storage holds.
#[verifier::ext_equal]
pub struct RegistryView {
    /// Name and version of the contract that wrote the state.
    pub version: Option<(Seq<char>, Seq<char>)>,
    /// Owner and issuance count, once set up.
    pub config: Option<(Seq<char>, u64)>,
    /// The issuer allowlist, ascending by key.
    pub issuers: Seq<Seq<char>>,
    /// The certificate records, ascending by key.
    pub certificates: Seq<Certificate>,
}

impl RegistryView {
    /// Both collections are strictly ascending by key.
    pub open spec fn wf(self) -> bool {
        &&& strictly_sorted(addr_keys(self.issuers))
        &&& strictly_sorted(cert_keys(self.certificates))
    }

    /// What holds of every state the registry's requests lead to: before set
    /// up nothing is stored; after it the allowlist is never empty and the
    /// issuance count is the number of records; every record is one the
    /// registry accepted and revoked consistently.
    pub open spec fn consistent(self) -> bool {
        &&& match self.config {
            None => self.issuers.len() == 0 && self.certificates.len() == 0,
            Some((owner, total)) => self.issuers.len() > 0 && total == self.certificates.len(),
        }
        &&& records_valid(self.certificates)
    }
}

/// A record as the registry stores it: an id and a content hash of the
/// accepted shape, a revocation time exactly when it is revoked, and a reason
/// only when it is revoked.
pub open spec fn valid_record(c: Certificate) -> bool {
    &&& valid_cert_id(c.cert_id@)
    &&& valid_content_hash(c.content_hash@)
    &&& (c.revoked <==> c.revoked_at is Some)
    &&& (!c.revoked ==> c.revoke_reason is None)
}

/// Every record is a valid one.
pub open spec fn records_valid(s: Seq<Certificate>) -> bool {
    forall|i: int| 0 <= i < s.len() ==> valid_record(#[trigger] s[i])
}

/// Two different strings have different keys.
pub proof fn lemma_str_key_injective(a: Seq<char>, b: Seq<char>)
    ensures
        str_key(a) == str_key(b) ==> a == b,
{
    encode_utf8_decode_utf8(a);
    encode_utf8_decode_utf8(b);
}

/// Whether two strings are equal, compared by their bytes.
pub fn str_eq(a: &str, b: &str) -> (r: bool)
    ensures
        r == (a@ == b@),
{
    let r = crate::order::bytes_eq(a.as_bytes(), b.as_bytes());
    proof {
        lemma_str_key_injective(a@, b@);
    }
    r
}

/// A copy of a list of strings.
pub fn clone_strings(v: &Vec<String>) -> (r: Vec<String>)
    ensures
        r@ == v@,
{
    let mut r: Vec<String> = Vec::new();
    let mut i: usize = 0;
    while i < v.len()
        invariant
            i <= v.len(),
            r@ == v@.take(i as int),
        decreases v.len() - i,
    {
        r.push(v[i].clone());
        assert(r@ =~= v@.take(i + 1));
        i = i + 1;
    }
    assert(r@ =~= v@);
    r
}

/// A copy of a list of certificates.
pub fn clone_certificates(v: &Vec<Certificate>) -> (r: Vec<Certificate>)
    ensures
        r@ == v@,
{
    let mut r: Vec<Certificate> = Vec::new();
    let mut i: usize = 0;
    while i < v.len()
        invariant
            i <= v.len(),
            r@ == v@.take(i as int),
        decreases v.len() - i,
    {
        r.push(v[i].clone());
        assert(r@ =~= v@.take(i + 1));
        i = i + 1;
    }
    assert(r@ =~= v@);
    r
}

impl Clone for Config {
    fn clone(&self) -> (r: Self)
        ensures
            r == *self,
    {
        Config { owner: self.owner.clone(), total_issued: self.total_issued }
    }
}

impl Clone for ContractVersion {
    fn clone(&self) -> (r: Self)
        ensures
            r == *self,
    {
        ContractVersion { contract: self.contract.clone(), version: self.version.clone() }
    }
}

/// The registry's stored state.
#[derive(Debug)]
pub struct Registry {
    version: Option<ContractVersion>,
    config: Option<Config>,
    issuers: Vec<String>,
    certificates: Vec<Certificate>,
}

impl View for Registry {
    type V = RegistryView;

    closed spec fn view(&self) -> RegistryView {
        RegistryView {
            version: match self.version {
                Some(v) => Some((v.contract@, v.version@)),
                None => None,
            },
            config: match self.config {
                Some(c) => Some((c.owner@, c.total_issued)),
                None => None,
            },
            issuers: self.issuers@.map_values(|a: String| a@),
            certificates: self.certificates@,
        }
    }
}

impl Registry {
    /// Empty storage.
    pub fn new() -> (r: Registry)
        ensures
            r@ == (RegistryView {
                version: None,
                config: None,
                issuers: Seq::empty(),
                certificates: Seq::empty(),
            }),
            r@.wf(),
            r@.consistent(),
    {
        let r = Registry { version: None, config: None, issuers: Vec::new(), certificates: Vec::new() };
        assert(r@.issuers =~= Seq::<Seq<char>>::empty());
        r
    }

    /// Records the contract name and version.
    pub fn set_contract_version(&mut self, contract: String, version: String)
        ensures
            final(self)@ == (RegistryView { version: Some((contract@, version@)), ..old(self)@ }),
    {
        self.version = Some(ContractVersion { contract, version });
    }

    /// The stored contract name and version.
    pub fn contract_version(&self) -> (r: Option<&ContractVersion>)
        ensures
            match r {
                Some(v) => self@.version == Some((v.contract@, v.version@)),
                None => self@.version is None,
            },
    {
        self.version.as_ref()
    }

    /// The stored configuration.
    pub fn config(&self) -> (r: Option<&Config>)
        ensures
            match r {
                Some(c) => self@.config == Some((c.owner@, c.total_issued)),
                None => self@.config is None,
            },
    {
        self.config.as_ref()
    }

    /// The issuer allowlist, ascending.
    pub fn issuers(&self) -> (r: &Vec<String>)
        ensures
            r@.map_values(|a: String| a@) == self@.issuers,
    {
        &self.issuers
    }

    /// The certificate records, ascending by id.
    pub fn certificates(&self) -> (r: &Vec<Certificate>)
        ensures
            r@ == self@.certificates,
    {
        &self.certificates
    }

    pub(crate) fn set_config(&mut self, c: Config)
        ensures
            final(self)@ == (RegistryView { config: Some((c.owner@, c.total_issued)), ..old(self)@ }),
    {
        self.config = Some(c);
    }

    /// Whether `a` is on the allowlist.
    pub fn is_issuer(&self, a: &str) -> (r: bool)
        ensures
            r == self@.issuers.contains(a@),
    {
        let mut i: usize = 0;
        while i < self.issuers.len()
            invariant
                i <= self.issuers@.len(),
                forall|j: int| 0 <= j < i ==> self.issuers@[j]@ != a@,
            decreases self.issuers.len() - i,
        {
            if str_eq(self.issuers[i].as_str(), a) {
                assert(self@.issuers[i as int] == a@);
                return true;
            }
            i = i + 1;
        }
        assert forall|j: int| 0 <= j < self@.issuers.len() implies self@.issuers[j] != a@ by {
            assert(self@.issuers[j] == self.issuers@[j]@);
        }
        false
    }

    /// Puts `a` on the allowlist.
    pub(crate) fn insert_issuer(&mut self, a: String)
        requires
            old(self)@.wf(),
        ensures
            final(self)@ == (RegistryView { issuers: set_insert(old(self)@.issuers, a@), ..old(self)@ }),
            final(self)@.wf(),
    {
        if self.is_issuer(a.as_str()) {
            return;
        }
        let ghost s = self@.issuers;
        let ghost keys = addr_keys(s);
        let ghost k = str_key(a@);
        let mut i: usize = 0;
        while i < self.issuers.len() && crate::order::bytes_lt(self.issuers[i].as_str().as_bytes(), a.as_str().as_bytes())
            invariant
                i <= self.issuers@.len(),
                s == self@.issuers,
                keys == addr_keys(s),
                k == str_key(a@),
                s.len() == self.issuers@.len(),
                forall|j: int| 0 <= j < s.len() ==> s[j] == self.issuers@[j]@,
                forall|j: int| 0 <= j < i ==> lex_lt(#[trigger] keys[j], k),
            decreases self.issuers.len() - i,
        {
            i = i + 1;
        }
        proof {
            if keys.contains(k) {
                let j = choose|j: int| 0 <= j < keys.len() && keys[j] == k;
                lemma_str_key_injective(s[j], a@);
                assert(s.contains(a@));
            }
            lemma_count_below_unique(keys, k, i as int);
            lemma_insert_sorted(keys, k);
            assert(addr_keys(s.insert(i as int, a@)) =~= keys.insert(i as int, k));
        }
        let ghost before = self.issuers@;
        self.issuers.insert(i, a);
        proof {
            assert(self.issuers@ == before.insert(i as int, a));
            assert(self@.issuers =~= s.insert(i as int, a@));
        }
    }

    /// Takes `a` off the allowlist.
    pub(crate) fn remove_issuer(&mut self, a: &str)
        requires
            old(self)@.wf(),
        ensures
            final(self)@ == (RegistryView { issuers: set_remove(old(self)@.issuers, a@), ..old(self)@ }),
            final(self)@.wf(),
    {
        let ghost s = self@.issuers;
        let mut i: usize = 0;
        while i < self.issuers.len()
            invariant
                i <= self.issuers@.len(),
                s == self@.issuers,
                s.len() == self.issuers@.len(),
                forall|j: int| 0 <= j < s.len() ==> s[j] == self.issuers@[j]@,
                forall|j: int| 0 <= j < i ==> s[j] != a@,
                self@.wf(),
                self@ == old(self)@,
            decreases self.issuers.len() - i,
        {
            if str_eq(self.issuers[i].as_str(), a) {
                proof {
                    assert(s[i as int] == a@);
                    assert(s.contains(a@));
                    let c = s.index_of(a@);
                    lemma_sorted_unique(addr_keys(s), c, i as int);
                    lemma_remove_sorted(addr_keys(s), i as int);
                    assert(addr_keys(s.remove(i as int)) =~= addr_keys(s).remove(i as int));
                }
                let ghost before = self.issuers@;
                self.issuers.remove(i);
                proof {
                    assert(self.issuers@ == before.remove(i as int));
                    assert(self@.issuers =~= s.remove(i as int));
                    assert(addr_keys(self@.issuers) == addr_keys(s).remove(i as int));
                    assert(self@.certificates == old(self)@.certificates);
                    assert(self@.wf());
                }
                return;
            }
            i = i + 1;
        }
        assert(!s.contains(a@));
    }

    /// The position of the record with this id, if any.
    pub fn find_certificate(&self, id: &str) -> (r: Option<usize>)
        requires
            self@.wf(),
        ensures
            match r {
                Some(i) => i < self@.certificates.len() && self@.certificates[i as int].cert_id@ == id@
                    && i == cert_index(self@.certificates, id@),
                None => !has_cert(self@.certificates, id@),
            },
    {
        let mut i: usize = 0;
        while i < self.certificates.len()
            invariant
                i <= self.certificates@.len(),
                forall|j: int| 0 <= j < i ==> self.certificates@[j].cert_id@ != id@,
                self@.wf(),
            decreases self.certificates.len() - i,
        {
            if str_eq(self.certificates[i].cert_id.as_str(), id) {
                proof {
                    let s = self@.certificates;
                    assert(s == self.certificates@);
                    assert(has_cert(s, id@));
                    let c = cert_index(s, id@);
                    lemma_sorted_unique(cert_keys(s), c, i as int);
                }
                return Some(i);
            }
            i = i + 1;
        }
        None
    }

    /// The record at position `i`.
    pub fn certificate_at(&self, i: usize) -> (r: &Certificate)
        requires
            i < self@.certificates.len(),
        ensures
            *r == self@.certificates[i as int],
    {
        &self.certificates[i]
    }

    /// Adds a record with a new id at its place in key order.
    pub(crate) fn insert_certificate(&mut self, c: Certificate)
        requires
            old(self)@.wf(),
            !has_cert(old(self)@.certificates, c.cert_id@),
        ensures
            final(self)@ == (RegistryView { certificates: insert_cert(old(self)@.certificates, c), ..old(self)@ }),
            final(self)@.wf(),
    {
        let ghost s = self@.certificates;
        let ghost keys = cert_keys(s);
        let ghost k = cert_key(c);
        let mut i: usize = 0;
        while i < self.certificates.len()
            && crate::order::bytes_lt(self.certificates[i].cert_id.as_str().as_bytes(), c.cert_id.as_str().as_bytes())
            invariant
                i <= self.certificates@.len(),
                s == self@.certificates,
                s == self.certificates@,
                keys == cert_keys(s),
                k == cert_key(c),
                forall|j: int| 0 <= j < i ==> lex_lt(#[trigger] keys[j], k),
            decreases self.certificates.len() - i,
        {
            i = i + 1;
        }
        proof {
            if keys.contains(k) {
                let j = choose|j: int| 0 <= j < keys.len() && keys[j] == k;
                lemma_str_key_injective(s[j].cert_id@, c.cert_id@);
                assert(has_cert(s, c.cert_id@));
            }
            lemma_count_below_unique(keys, k, i as int);
            lemma_insert_sorted(keys, k);
            assert(cert_keys(s.insert(i as int, c)) =~= keys.insert(i as int, k));
        }
        self.certificates.insert(i, c);
        assert(self@.certificates =~= s.insert(i as int, c));
    }

    /// Replaces the record at position `i` by one with the same id.
    pub(crate) fn replace_certificate(&mut self, i: usize, c: Certificate)
        requires
            old(self)@.wf(),
            i < old(self)@.certificates.len(),
            c.cert_id@ == old(self)@.certificates[i as int].cert_id@,
        ensures
            final(self)@ == (RegistryView {
                certificates: old(self)@.certificates.update(i as int, c),
                ..old(self)@
            }),
            final(self)@.wf(),
    {
        let ghost s = self@.certificates;
        self.certificates.set(i, c);
        assert(cert_keys(s.update(i as int, c)) =~= cert_keys(s));
        assert(self@.certificates =~= s.update(i as int, c));
    }
}

impl Clone for Registry {
    fn clone(&self) -> (r: Self)
        ensures
            r@ == self@,
    {
        let version = match &self.version {
            Some(v) => Some(v.clone()),
            None => None,
        };
        let config = match &self.config {
            Some(c) => Some(c.clone()),
            None => None,
        };
        let r = Registry {
            version,
            config,
            issuers: clone_strings(&self.issuers),
            certificates: clone_certificates(&self.certificates),
        };
        assert(r@.issuers =~= self@.issuers);
        r
    }
}

impl Registry {
    /// Counts one more issued certificate.
    pub(crate) fn bump_total_issued(&mut self)
        requires
            old(self)@.config matches Some((_, t)) && t < u64::MAX,
        ensures
            old(self)@.config matches Some((o, t)) && final(self)@ == (RegistryView {
                config: Some((o, (t + 1) as u64)),
                ..old(self)@
            }),
    {
        if let Some(c) = &self.config {
            let owner = c.owner.clone();
            let t = c.total_issued;
            self.config = Some(Config { owner, total_issued: t + 1 });
        }
    }
}

/// Whether each string's key comes strictly before the next one's.
fn strings_ascending(v: &Vec<String>) -> (r: bool)
    ensures
        r == strictly_sorted(addr_keys(v@.map_values(|a: String| a@))),
{
    let ghost keys = addr_keys(v@.map_values(|a: String| a@));
    if v.len() == 0 {
        return true;
    }
    let mut i: usize = 0;
    while i + 1 < v.len()
        invariant
            0 < v.len(),
            i < v.len(),
            keys == addr_keys(v@.map_values(|a: String| a@)),
            forall|k: int| 0 <= k < i ==> lex_lt(#[trigger] keys[k], keys[k + 1]),
        decreases v.len() - i,
    {
        if !bytes_lt(v[i].as_str().as_bytes(), v[i + 1].as_str().as_bytes()) {
            assert(keys[i as int] == str_key(v@[i as int]@) && keys[i + 1] == str_key(v@[i + 1]@));
            assert(!lex_lt(keys[i as int], keys[i + 1]));
            return false;
        }
        i = i + 1;
    }
    proof {
        lemma_adjacent_sorted(keys);
    }
    true
}

/// Whether each certificate's key comes strictly before the next one's.
fn certificates_ascending(v: &Vec<Certificate>) -> (r: bool)
    ensures
        r == strictly_sorted(cert_keys(v@)),
{
    let ghost keys = cert_keys(v@);
    if v.len() == 0 {
        return true;
    }
    let mut i: usize = 0;
    while i + 1 < v.len()
        invariant
            0 < v.len(),
            i < v.len(),
            keys == cert_keys(v@),
            forall|k: int| 0 <= k < i ==> lex_lt(#[trigger] keys[k], keys[k + 1]),
        decreases v.len() - i,
    {
        if !bytes_lt(v[i].cert_id.as_str().as_bytes(), v[i + 1].cert_id.as_str().as_bytes()) {
            assert(keys[i as int] == cert_key(v@[i as int]) && keys[i + 1] == cert_key(v@[i + 1]));
            assert(!lex_lt(keys[i as int], keys[i + 1]));
            return false;
        }
        i = i + 1;
    }
    proof {
        lemma_adjacent_sorted(keys);
    }
    true
}

impl Registry {
    /// The registry holding the given stored entries; refused unless the
    /// issuers and the certificates each come in strictly ascending key order,
    /// as storage lists them.
    pub fn from_parts(
        version: Option<ContractVersion>,
        config: Option<Config>,
        issuers: Vec<String>,
        certificates: Vec<Certificate>,
    ) -> (r: Option<Registry>)
        ensures
            match r {
                Some(reg) => {
                    &&& reg@.wf()
                    &&& reg@.version == match version {
                        Some(v) => Some((v.contract@, v.version@)),
                        None => None,
                    }
                    &&& reg@.config == match config {
                        Some(c) => Some((c.owner@, c.total_issued)),
                        None => None,
                    }
                    &&& reg@.issuers == issuers@.map_values(|a: String| a@)
                    &&& reg@.certificates == certificates@
                },
                None => !(strictly_sorted(addr_keys(issuers@.map_values(|a: String| a@)))
                    && strictly_sorted(cert_keys(certificates@))),
            },
    {
        if !strings_ascending(&issuers) || !certificates_ascending(&certificates) {
            return None;
        }
        Some(Registry { version, config, issuers, certificates })
    }
}

} // verus!
