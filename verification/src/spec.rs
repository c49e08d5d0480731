//! What each request does to the registry's state and what it answers, stated
//! over the state's view.
use vstd::prelude::*;
use crate::error::{ContractError, StdError, StoreItem};
use crate::msg::{
    CertificateInput, Env, ExecuteMsg, InstantiateMsg, MessageInfo, QueryMsg, QueryResponse, Response,
};
use crate::order::lex_lt;
use crate::state::{
    cert_index, cert_key, has_cert, insert_cert, set_insert, set_remove, str_key, Certificate,
    RegistryView,
};
use crate::text::{decimal, join, valid_cert_id, valid_content_hash, views};

verus! {

/// The name the registry records as the contract that wrote its state.
pub const CONTRACT_NAME: &'static str = "crates.io:kruuu-certificate-registry";

/// The version the registry records.
pub const CONTRACT_VERSION: &'static str = "0.1.0";

/// The most certificates one batch may hold.
pub const MAX_BATCH_SIZE: usize = 100;

/// Page size of the list queries when none is asked for.
pub const DEFAULT_QUERY_LIMIT: u32 = 30;

/// The largest page size of the list queries.
pub const MAX_QUERY_LIMIT: u32 = 100;

/// The outcome of validating one address: the validated address, or why it is
/// not one.
pub type AddrCheck = Result<String, StdError>;

/// The error of the first address that did not validate, in order.
pub open spec fn first_error(checks: Seq<AddrCheck>) -> Option<StdError>
    decreases checks.len(),
{
    if checks.len() == 0 {
        None
    } else {
        match first_error(checks.drop_last()) {
            Some(e) => Some(e),
            None => match checks.last() {
                Ok(_) => None,
                Err(e) => Some(e),
            },
        }
    }
}

/// The validated address of a successful check.
pub open spec fn checked(c: AddrCheck) -> Seq<char> {
    match c {
        Ok(a) => a@,
        Err(_) => Seq::empty(),
    }
}

/// The allowlist with each validated address added, in order.
pub open spec fn insert_all(s: Seq<Seq<char>>, adds: Seq<AddrCheck>) -> Seq<Seq<char>>
    decreases adds.len(),
{
    if adds.len() == 0 {
        s
    } else {
        set_insert(insert_all(s, adds.drop_last()), checked(adds.last()))
    }
}

/// The allowlist with each validated address removed, in order.
pub open spec fn remove_all(s: Seq<Seq<char>>, rems: Seq<AddrCheck>) -> Seq<Seq<char>>
    decreases rems.len(),
{
    if rems.len() == 0 {
        s
    } else {
        set_remove(remove_all(s, rems.drop_last()), checked(rems.last()))
    }
}

/// The addresses that setting up validates, in order: the owner, then each
/// issuer.
pub open spec fn instantiate_addresses(msg: InstantiateMsg) -> Seq<String> {
    seq![msg.owner] + msg.issuers@
}

/// The state after setting up, or the error.
pub open spec fn instantiate_state(msg: InstantiateMsg, checks: Seq<AddrCheck>) -> Result<RegistryView, ContractError> {
    if msg.issuers@.len() == 0 {
        Err(ContractError::NoIssuersLeft {})
    } else {
        match first_error(checks) {
            Some(e) => Err(ContractError::Std(e)),
            None => Ok(RegistryView {
                version: Some((CONTRACT_NAME@, CONTRACT_VERSION@)),
                config: Some((checked(checks[0]), 0u64)),
                issuers: insert_all(Seq::empty(), checks.drop_first()),
                certificates: Seq::empty(),
            }),
        }
    }
}

/// The attributes of a successful set up.
pub open spec fn instantiate_response(msg: InstantiateMsg, checks: Seq<AddrCheck>) -> Seq<(Seq<char>, Seq<char>)> {
    seq![
        ("action"@, "instantiate"@),
        ("owner"@, checked(checks[0])),
        ("issuers"@, join(views(msg.issuers@), ","@)),
    ]
}

/// The addresses that a request validates, in order.
pub open spec fn execute_addresses(msg: ExecuteMsg) -> Seq<String> {
    match msg {
        ExecuteMsg::UpdateIssuers { add, remove } => add@ + remove@,
        ExecuteMsg::UpdateOwner { new_owner } => seq![new_owner],
        _ => Seq::empty(),
    }
}

/// The issuance count (zero before set up).
pub open spec fn total_issued(s: RegistryView) -> u64 {
    match s.config {
        Some((_, t)) => t,
        None => 0,
    }
}

/// Why the sender may not govern, if it may not.
pub open spec fn owner_check(s: RegistryView, sender: Seq<char>) -> Option<ContractError> {
    match s.config {
        None => Some(ContractError::Std(StdError::NotFound { item: StoreItem::Config })),
        Some((owner, _)) => if owner != sender {
            Some(ContractError::Unauthorized {})
        } else {
            None
        },
    }
}

/// The record an input becomes.
pub open spec fn new_certificate(input: CertificateInput, info: MessageInfo, env: Env) -> Certificate {
    Certificate {
        cert_id: input.cert_id,
        institution_id: input.institution_id,
        recipient_id: input.recipient_id,
        template_id: input.template_id,
        content_hash: input.content_hash,
        metadata_uri: input.metadata_uri,
        issued_at: match input.issued_at {
            Some(t) => t,
            None => env.block_time,
        },
        issued_by: info.sender,
        revoked: false,
        revoked_at: None,
        revoke_reason: None,
    }
}

/// The check of an input's shape, in the order the registry makes it.
pub open spec fn input_error(input: CertificateInput) -> Option<ContractError> {
    if !valid_cert_id(input.cert_id@) {
        Some(ContractError::InvalidCertId {})
    } else if !valid_content_hash(input.content_hash@) {
        Some(ContractError::InvalidContentHash {})
    } else {
        None
    }
}

/// The state after storing one certificate, or the error.
#[verifier::opaque]
pub open spec fn store_one(s: RegistryView, input: CertificateInput, info: MessageInfo, env: Env) -> Result<RegistryView, ContractError> {
    match input_error(input) {
        Some(e) => Err(e),
        None => if has_cert(s.certificates, input.cert_id@) {
            Err(ContractError::DuplicateCertificate { cert_id: input.cert_id })
        } else {
            match s.config {
                None => Err(ContractError::Std(StdError::NotFound { item: StoreItem::Config })),
                Some((owner, total)) => Ok(RegistryView {
                    config: Some((owner, (total + 1) as u64)),
                    certificates: insert_cert(s.certificates, new_certificate(input, info, env)),
                    ..s
                }),
            }
        },
    }
}

/// The state after storing the certificates one after another, or the first
/// error.
pub open spec fn store_all(s: RegistryView, inputs: Seq<CertificateInput>, info: MessageInfo, env: Env) -> Result<RegistryView, ContractError>
    decreases inputs.len(),
{
    if inputs.len() == 0 {
        Ok(s)
    } else {
        match store_all(s, inputs.drop_last(), info, env) {
            Ok(t) => store_one(t, inputs.last(), info, env),
            Err(e) => Err(e),
        }
    }
}

/// A record marked revoked at the block time, with the reason.
pub open spec fn revoked_certificate(c: Certificate, env: Env, reason: Option<String>) -> Certificate {
    Certificate { revoked: true, revoked_at: Some(env.block_time), revoke_reason: reason, ..c }
}

/// The state after a revocation, or the error.
pub open spec fn revoke_state(s: RegistryView, cert_id: String, reason: Option<String>, env: Env) -> Result<RegistryView, ContractError> {
    if !has_cert(s.certificates, cert_id@) {
        Err(ContractError::CertificateNotFound { cert_id })
    } else {
        let i = cert_index(s.certificates, cert_id@);
        if s.certificates[i].revoked {
            Err(ContractError::AlreadyRevoked { cert_id })
        } else {
            Ok(RegistryView {
                certificates: s.certificates.update(i, revoked_certificate(s.certificates[i], env, reason)),
                ..s
            })
        }
    }
}

/// The state after changing the allowlist (the first `n_add` checks are the
/// additions, the rest the removals), or the error.
pub open spec fn update_issuers_state(s: RegistryView, n_add: int, checks: Seq<AddrCheck>) -> Result<RegistryView, ContractError> {
    match first_error(checks) {
        Some(e) => Err(ContractError::Std(e)),
        None => {
            let issuers = remove_all(insert_all(s.issuers, checks.take(n_add)), checks.skip(n_add));
            if issuers.len() == 0 {
                Err(ContractError::NoIssuersLeft {})
            } else {
                Ok(RegistryView { issuers, ..s })
            }
        },
    }
}

/// The state after a request, or the error.
pub open spec fn execute_state(s: RegistryView, info: MessageInfo, env: Env, msg: ExecuteMsg, checks: Seq<AddrCheck>) -> Result<RegistryView, ContractError> {
    match msg {
        ExecuteMsg::Issue { cert } => if !s.issuers.contains(info.sender@) {
            Err(ContractError::NotIssuer {})
        } else {
            store_one(s, cert, info, env)
        },
        ExecuteMsg::IssueBatch { certs } => if !s.issuers.contains(info.sender@) {
            Err(ContractError::NotIssuer {})
        } else if certs@.len() == 0 {
            Err(ContractError::EmptyBatch {})
        } else if certs@.len() > MAX_BATCH_SIZE {
            Err(ContractError::BatchTooLarge { size: certs@.len() as usize, max: MAX_BATCH_SIZE })
        } else {
            store_all(s, certs@, info, env)
        },
        ExecuteMsg::Revoke { cert_id, reason } => if !s.issuers.contains(info.sender@) {
            Err(ContractError::NotIssuer {})
        } else {
            revoke_state(s, cert_id, reason, env)
        },
        ExecuteMsg::UpdateIssuers { add, remove } => match owner_check(s, info.sender@) {
            Some(e) => Err(e),
            None => update_issuers_state(s, add@.len() as int, checks),
        },
        ExecuteMsg::UpdateOwner { new_owner } => match owner_check(s, info.sender@) {
            Some(e) => Err(e),
            None => match checks[0] {
                Err(e) => Err(ContractError::Std(e)),
                Ok(a) => Ok(RegistryView { config: Some((a@, total_issued(s))), ..s }),
            },
        },
    }
}

/// The ids of a batch, in order.
pub open spec fn input_ids(certs: Seq<CertificateInput>) -> Seq<Seq<char>> {
    certs.map_values(|c: CertificateInput| c.cert_id@)
}

/// The attributes of a successful request.
pub open spec fn execute_response(msg: ExecuteMsg, checks: Seq<AddrCheck>) -> Seq<(Seq<char>, Seq<char>)> {
    match msg {
        ExecuteMsg::Issue { cert } => seq![
            ("action"@, "issue"@),
            ("cert_id"@, cert.cert_id@),
            ("institution_id"@, decimal(cert.institution_id as nat)),
            ("recipient_id"@, decimal(cert.recipient_id as nat)),
            ("content_hash"@, cert.content_hash@),
        ],
        ExecuteMsg::IssueBatch { certs } => seq![
            ("action"@, "issue_batch"@),
            ("count"@, decimal(certs@.len())),
            ("cert_ids"@, join(input_ids(certs@), ","@)),
        ],
        ExecuteMsg::Revoke { cert_id, .. } => seq![("action"@, "revoke"@), ("cert_id"@, cert_id@)],
        ExecuteMsg::UpdateIssuers { add, remove } => seq![
            ("action"@, "update_issuers"@),
            ("added"@, join(views(add@), ","@)),
            ("removed"@, join(views(remove@), ","@)),
        ],
        ExecuteMsg::UpdateOwner { .. } => seq![("action"@, "update_owner"@), ("new_owner"@, checked(checks[0]))],
    }
}

/// The index a list query reads.
pub enum IndexKind {
    Recipient(u64),
    Institution(u64),
}

/// The record is listed under the index.
pub open spec fn in_index(c: Certificate, kind: IndexKind) -> bool {
    match kind {
        IndexKind::Recipient(id) => c.recipient_id == id,
        IndexKind::Institution(id) => c.institution_id == id,
    }
}

/// The record's key comes strictly after the page's start, if any.
pub open spec fn after_start(c: Certificate, start: Option<Seq<char>>) -> bool {
    match start {
        None => true,
        Some(st) => lex_lt(str_key(st), cert_key(c)),
    }
}

/// The records under the index after the start, in key order.
pub open spec fn matching(s: Seq<Certificate>, kind: IndexKind, start: Option<Seq<char>>) -> Seq<Certificate>
    decreases s.len(),
{
    if s.len() == 0 {
        Seq::empty()
    } else {
        let m = matching(s.drop_last(), kind, start);
        if in_index(s.last(), kind) && after_start(s.last(), start) {
            m.push(s.last())
        } else {
            m
        }
    }
}

/// The first `limit` of the matching records.
pub open spec fn page(s: Seq<Certificate>, kind: IndexKind, start: Option<Seq<char>>, limit: nat) -> Seq<Certificate> {
    let m = matching(s, kind, start);
    if m.len() <= limit {
        m
    } else {
        m.take(limit as int)
    }
}

/// The page size a list query uses.
pub open spec fn effective_limit(limit: Option<u32>) -> nat {
    let l = match limit {
        Some(l) => l,
        None => DEFAULT_QUERY_LIMIT,
    };
    if l < MAX_QUERY_LIMIT {
        l as nat
    } else {
        MAX_QUERY_LIMIT as nat
    }
}

/// The view of an optional string.
pub open spec fn opt_view(s: Option<String>) -> Option<Seq<char>> {
    match s {
        Some(x) => Some(x@),
        None => None,
    }
}

/// What a migration does: it only rewrites the recorded version, and only
/// over state this contract wrote.
pub open spec fn migrate_outcome(old: RegistryView, new: RegistryView, r: Result<Response, ContractError>) -> bool {
    match old.version {
        None => new == old && r == Err::<Response, ContractError>(
            ContractError::Std(StdError::NotFound { item: StoreItem::ContractVersion }),
        ),
        Some((name, ver)) => if name != CONTRACT_NAME@ {
            &&& new == old
            &&& r matches Err(ContractError::InvalidMigration { expected, actual })
            &&& expected@ == CONTRACT_NAME@
            &&& actual@ == name
        } else {
            &&& new == (RegistryView { version: Some((CONTRACT_NAME@, CONTRACT_VERSION@)), ..old })
            &&& r matches Ok(resp)
            &&& resp@ == seq![
                ("action"@, "migrate"@),
                ("from_version"@, ver),
                ("to_version"@, CONTRACT_VERSION@),
            ]
        },
    }
}

/// What a query answers.
pub open spec fn query_outcome(s: RegistryView, msg: QueryMsg, r: Result<QueryResponse, StdError>) -> bool {
    match msg {
        QueryMsg::Config {} => match s.config {
            None => r == Err::<QueryResponse, StdError>(StdError::NotFound { item: StoreItem::Config }),
            Some((owner, total)) => {
                &&& r matches Ok(QueryResponse::Config(c))
                &&& c.owner@ == owner
                &&& views(c.issuers@) == s.issuers
                &&& c.total_issued == total
            },
        },
        QueryMsg::Certificate { cert_id } => if has_cert(s.certificates, cert_id@) {
            &&& r matches Ok(QueryResponse::Certificate(c))
            &&& c.certificate == s.certificates[cert_index(s.certificates, cert_id@)]
        } else {
            r == Err::<QueryResponse, StdError>(StdError::NotFound { item: StoreItem::Certificate })
        },
        QueryMsg::CertificatesByRecipient { recipient_id, start_after, limit } => {
            &&& r matches Ok(QueryResponse::Certificates(c))
            &&& c.certificates@ == page(
                s.certificates,
                IndexKind::Recipient(recipient_id),
                opt_view(start_after),
                effective_limit(limit),
            )
        },
        QueryMsg::CertificatesByInstitution { institution_id, start_after, limit } => {
            &&& r matches Ok(QueryResponse::Certificates(c))
            &&& c.certificates@ == page(
                s.certificates,
                IndexKind::Institution(institution_id),
                opt_view(start_after),
                effective_limit(limit),
            )
        },
    }
}

/// An error in a prefix of the checks is the first error of all of them.
pub proof fn lemma_first_error_prefix(checks: Seq<AddrCheck>, k: int)
    requires
        0 <= k <= checks.len(),
        first_error(checks.take(k)) is Some,
    ensures
        first_error(checks) == first_error(checks.take(k)),
    decreases checks.len(),
{
    if k < checks.len() {
        assert(checks.drop_last().take(k) =~= checks.take(k));
        lemma_first_error_prefix(checks.drop_last(), k);
    } else {
        assert(checks.take(k) =~= checks);
    }
}

/// The first error of one more check.
pub proof fn lemma_first_error_step(checks: Seq<AddrCheck>, k: int)
    requires
        0 <= k < checks.len(),
    ensures
        first_error(checks.take(k + 1)) == match first_error(checks.take(k)) {
            Some(e) => Some(e),
            None => match checks[k] {
                Ok(_) => None,
                Err(e) => Some(e),
            },
        },
{
    assert(checks.take(k + 1).drop_last() =~= checks.take(k));
}

/// An error in storing a prefix of a batch is the error of the whole batch.
pub proof fn lemma_store_all_prefix(s: RegistryView, inputs: Seq<CertificateInput>, k: int, info: MessageInfo, env: Env)
    requires
        0 <= k <= inputs.len(),
        store_all(s, inputs.take(k), info, env) is Err,
    ensures
        store_all(s, inputs, info, env) == store_all(s, inputs.take(k), info, env),
    decreases inputs.len(),
{
    if k < inputs.len() {
        assert(inputs.drop_last().take(k) =~= inputs.take(k));
        lemma_store_all_prefix(s, inputs.drop_last(), k, info, env);
    } else {
        assert(inputs.take(k) =~= inputs);
    }
}

/// Storing one more certificate of a batch.
pub proof fn lemma_store_all_step(s: RegistryView, inputs: Seq<CertificateInput>, k: int, info: MessageInfo, env: Env)
    requires
        0 <= k < inputs.len(),
    ensures
        store_all(s, inputs.take(k + 1), info, env) == match store_all(s, inputs.take(k), info, env) {
            Ok(t) => store_one(t, inputs[k], info, env),
            Err(e) => Err(e),
        },
{
    assert(inputs.take(k + 1).drop_last() =~= inputs.take(k));
}


/// Storing `input` next reaches the count's increment with the count at its
/// largest value: the count would overflow.
pub open spec fn overflow_at(s: RegistryView, input: CertificateInput) -> bool {
    &&& input_error(input) is None
    &&& !has_cert(s.certificates, input.cert_id@)
    &&& s.config matches Some((_, t)) && t == u64::MAX
}

/// Storing the certificates one after another reaches an increment of the
/// count at its largest value before any error.
pub open spec fn store_all_overflows(s: RegistryView, inputs: Seq<CertificateInput>, info: MessageInfo, env: Env) -> bool
    decreases inputs.len(),
{
    if inputs.len() == 0 {
        false
    } else {
        ||| store_all_overflows(s, inputs.drop_last(), info, env)
        ||| (store_all(s, inputs.drop_last(), info, env) matches Ok(t) && overflow_at(t, inputs.last()))
    }
}

/// The request would count past the largest issuance count (where the count
/// overflows).
pub open spec fn overflows(s: RegistryView, info: MessageInfo, env: Env, msg: ExecuteMsg) -> bool {
    match msg {
        ExecuteMsg::Issue { cert } => s.issuers.contains(info.sender@) && overflow_at(s, cert),
        ExecuteMsg::IssueBatch { certs } => {
            &&& s.issuers.contains(info.sender@)
            &&& 0 < certs@.len() <= MAX_BATCH_SIZE
            &&& store_all_overflows(s, certs@, info, env)
        },
        _ => false,
    }
}

/// An overflow while storing a prefix of a batch is an overflow of the batch.
pub proof fn lemma_overflows_prefix(s: RegistryView, inputs: Seq<CertificateInput>, k: int, info: MessageInfo, env: Env)
    requires
        0 <= k <= inputs.len(),
        store_all_overflows(s, inputs.take(k), info, env),
    ensures
        store_all_overflows(s, inputs, info, env),
    decreases inputs.len(),
{
    if k < inputs.len() {
        assert(inputs.drop_last().take(k) =~= inputs.take(k));
        lemma_overflows_prefix(s, inputs.drop_last(), k, info, env);
    } else {
        assert(inputs.take(k) =~= inputs);
    }
}

/// After an error in a prefix of a batch nothing more is stored, so nothing
/// more can overflow.
pub proof fn lemma_overflows_after_error(s: RegistryView, inputs: Seq<CertificateInput>, k: int, info: MessageInfo, env: Env)
    requires
        0 <= k <= inputs.len(),
        store_all(s, inputs.take(k), info, env) is Err,
    ensures
        store_all_overflows(s, inputs, info, env) == store_all_overflows(s, inputs.take(k), info, env),
    decreases inputs.len(),
{
    if k < inputs.len() {
        assert(inputs.drop_last().take(k) =~= inputs.take(k));
        lemma_overflows_after_error(s, inputs.drop_last(), k, info, env);
        lemma_store_all_prefix(s, inputs.drop_last(), k, info, env);
    } else {
        assert(inputs.take(k) =~= inputs);
    }
}

} // verus!
