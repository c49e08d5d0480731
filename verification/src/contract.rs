//! The registry's entry points: set up, migration, the state-changing requests
//! and the queries.
//!
//! Addresses are validated by the chain, outside the registry: each entry point
//! that reads addresses takes, beside the message, the outcome of validating
//! each of them, in the order `instantiate_addresses` / `execute_addresses`
//! lists them, and acts on those outcomes where the request reaches them.
use vstd::prelude::*;
use crate::error::{ContractError, StdError, StoreItem};
use crate::msg::{
    CertificateInput, CertificateResponse, CertificatesResponse, ConfigResponse, Env, ExecuteMsg,
    InstantiateMsg, MessageInfo, MigrateMsg, QueryMsg, QueryResponse, Response,
};
use crate::spec::{
    after_start, effective_limit, execute_addresses, execute_response, execute_state, first_error,
    in_index, input_error, input_ids, insert_all, instantiate_addresses, instantiate_response,
    instantiate_state, lemma_first_error_prefix, lemma_first_error_step, lemma_overflows_after_error,
    lemma_overflows_prefix, lemma_store_all_prefix, lemma_store_all_step, matching,
    migrate_outcome, new_certificate, opt_view, overflow_at, overflows, owner_check, page,
    query_outcome, remove_all, revoked_certificate, store_all, store_all_overflows, store_one,
    update_issuers_state, AddrCheck, IndexKind, CONTRACT_NAME, CONTRACT_VERSION,
    DEFAULT_QUERY_LIMIT, MAX_QUERY_LIMIT,
};
use crate::state::{
    cert_index, clone_opt_string, clone_strings, has_cert, str_eq, Certificate, Config, Registry,
    RegistryView,
};
use crate::text::{decimal_string, is_content_hash, join_strings, views};

pub use crate::spec::MAX_BATCH_SIZE;

verus! {

/// The addresses that setting up validates, in order: the owner, then each
/// issuer.
pub fn instantiate_address_list(msg: &InstantiateMsg) -> (r: Vec<String>)
    ensures
        r@ == instantiate_addresses(*msg),
{
    let mut r: Vec<String> = Vec::new();
    r.push(msg.owner.clone());
    let mut i: usize = 0;
    while i < msg.issuers.len()
        invariant
            i <= msg.issuers@.len(),
            r@ == seq![msg.owner] + msg.issuers@.take(i as int),
        decreases msg.issuers.len() - i,
    {
        r.push(msg.issuers[i].clone());
        assert(r@ =~= seq![msg.owner] + msg.issuers@.take(i + 1));
        i = i + 1;
    }
    assert(msg.issuers@.take(i as int) =~= msg.issuers@);
    r
}

/// Sets the registry up: records the contract version, the owner with a zero
/// issuance count, and the issuers. Refuses an empty issuer list before it
/// looks at any address; then the first address that did not validate.
pub fn instantiate(
    _env: &Env,
    _info: &MessageInfo,
    msg: InstantiateMsg,
    checks: Vec<AddrCheck>,
) -> (r: Result<(Registry, Response), ContractError>)
    requires
        checks@.len() == instantiate_addresses(msg).len(),
    ensures
        match instantiate_state(msg, checks@) {
            Ok(s) => r matches Ok((reg, resp)) && reg@ == s && reg@.wf() && resp@ == instantiate_response(msg, checks@),
            Err(e) => r == Err::<(Registry, Response), ContractError>(e),
        },
{
    let mut reg = Registry::new();
    reg.set_contract_version(String::from_str(CONTRACT_NAME), String::from_str(CONTRACT_VERSION));
    if msg.issuers.len() == 0 {
        return Err(ContractError::NoIssuersLeft {});
    }
    proof {
        lemma_first_error_step(checks@, 0);
        assert(checks@.take(0) =~= Seq::<AddrCheck>::empty());
    }
    let owner = match &checks[0] {
        Ok(a) => a.clone(),
        Err(e) => {
            proof {
                lemma_first_error_prefix(checks@, 1);
            }
            return Err(ContractError::Std(e.clone()));
        },
    };
    reg.set_config(Config { owner: owner.clone(), total_issued: 0 });
    let ghost base = reg@;
    assert(checks@.subrange(1, 1) =~= Seq::<AddrCheck>::empty());
    let mut i: usize = 1;
    while i < checks.len()
        invariant
            1 <= i <= checks@.len(),
            msg.issuers@.len() > 0,
            first_error(checks@.take(i as int)) is None,
            reg@.wf(),
            reg@ == (RegistryView { issuers: insert_all(Seq::empty(), checks@.subrange(1, i as int)), ..base }),
            base.issuers == Seq::<Seq<char>>::empty(),
        decreases checks.len() - i,
    {
        proof {
            lemma_first_error_step(checks@, i as int);
        }
        match &checks[i] {
            Ok(a) => {
                reg.insert_issuer(a.clone());
                assert(checks@.subrange(1, i + 1).drop_last() =~= checks@.subrange(1, i as int));
            },
            Err(e) => {
                proof {
                    lemma_first_error_prefix(checks@, i + 1);
                }
                return Err(ContractError::Std(e.clone()));
            },
        }
        i = i + 1;
    }
    proof {
        assert(checks@.take(i as int) =~= checks@);
        assert(checks@.subrange(1, i as int) =~= checks@.drop_first());
    }
    let joined = join_strings(&msg.issuers, ",");
    let resp = Response::new()
        .add_attribute("action", String::from_str("instantiate"))
        .add_attribute("owner", owner)
        .add_attribute("issuers", joined);
    assert(resp@ =~= instantiate_response(msg, checks@));
    Ok((reg, resp))
}

/// Migrates state this contract wrote: records the current version and
/// leaves everything else as it was.
pub fn migrate(registry: &mut Registry, _env: &Env, _msg: MigrateMsg) -> (r: Result<Response, ContractError>)
    requires
        old(registry)@.wf(),
    ensures
        final(registry)@.wf(),
        migrate_outcome(old(registry)@, final(registry)@, r),
{
    let (contract, version) = match registry.contract_version() {
        None => {
            return Err(ContractError::Std(StdError::NotFound { item: StoreItem::ContractVersion }));
        },
        Some(v) => (v.contract.clone(), v.version.clone()),
    };
    if !str_eq(contract.as_str(), CONTRACT_NAME) {
        return Err(ContractError::InvalidMigration { expected: String::from_str(CONTRACT_NAME), actual: contract });
    }
    registry.set_contract_version(String::from_str(CONTRACT_NAME), String::from_str(CONTRACT_VERSION));
    let resp = Response::new()
        .add_attribute("action", String::from_str("migrate"))
        .add_attribute("from_version", version)
        .add_attribute("to_version", String::from_str(CONTRACT_VERSION));
    proof {
        let ghost expected = seq![
            ("action"@, "migrate"@),
            ("from_version"@, version@),
            ("to_version"@, CONTRACT_VERSION@),
        ];
        assert(resp@ =~= expected);
    }
    Ok(resp)
}

/// The addresses that a request validates, in order.
pub fn execute_address_list(msg: &ExecuteMsg) -> (r: Vec<String>)
    ensures
        r@ == execute_addresses(*msg),
{
    match msg {
        ExecuteMsg::UpdateIssuers { add, remove } => {
            let mut r = clone_strings(add);
            let mut i: usize = 0;
            while i < remove.len()
                invariant
                    i <= remove@.len(),
                    r@ == add@ + remove@.take(i as int),
                decreases remove.len() - i,
            {
                r.push(remove[i].clone());
                assert(r@ =~= add@ + remove@.take(i + 1));
                i = i + 1;
            }
            assert(remove@.take(i as int) =~= remove@);
            r
        },
        ExecuteMsg::UpdateOwner { new_owner } => {
            let mut r: Vec<String> = Vec::new();
            r.push(new_owner.clone());
            assert(r@ =~= seq![*new_owner]);
            r
        },
        _ => {
            let r: Vec<String> = Vec::new();
            assert(r@ =~= execute_addresses(*msg));
            r
        },
    }
}

/// Whether storing `input` next would count past the largest issuance count.
fn overflow_at_exec(registry: &Registry, input: &CertificateInput) -> (r: bool)
    requires
        registry@.wf(),
    ensures
        r == overflow_at(registry@, *input),
{
    if validate_input(input).is_err() {
        return false;
    }
    if registry.find_certificate(input.cert_id.as_str()).is_some() {
        return false;
    }
    match registry.config() {
        Some(c) => c.total_issued == u64::MAX,
        None => false,
    }
}

/// Whether the request can run without counting past the largest issuance
/// count: false exactly where the count would overflow.
pub fn room_for(registry: &Registry, env: &Env, info: &MessageInfo, msg: &ExecuteMsg) -> (r: bool)
    requires
        registry@.wf(),
    ensures
        r == !overflows(registry@, *info, *env, *msg),
{
    match msg {
        ExecuteMsg::Issue { cert } => {
            if !registry.is_issuer(info.sender.as_str()) {
                return true;
            }
            !overflow_at_exec(registry, cert)
        },
        ExecuteMsg::IssueBatch { certs } => {
            if !registry.is_issuer(info.sender.as_str()) || certs.len() == 0 || certs.len() > MAX_BATCH_SIZE {
                return true;
            }
            let ghost start = registry@;
            let mut scratch = registry.clone();
            assert(certs@.take(0) =~= Seq::<CertificateInput>::empty());
            let mut i: usize = 0;
            while i < certs.len()
                invariant
                    i <= certs@.len(),
                    start == registry@,
                    start.wf(),
                    overflows(start, *info, *env, *msg) == store_all_overflows(start, certs@, *info, *env),
                    scratch@.wf(),
                    store_all(start, certs@.take(i as int), *info, *env) == Ok::<RegistryView, ContractError>(scratch@),
                    !store_all_overflows(start, certs@.take(i as int), *info, *env),
                decreases certs.len() - i,
            {
                proof {
                    lemma_store_all_step(start, certs@, i as int, *info, *env);
                    assert(certs@.take(i + 1).drop_last() =~= certs@.take(i as int));
                    assert(certs@.take(i + 1).last() == certs@[i as int]);
                }
                if overflow_at_exec(&scratch, &certs[i]) {
                    proof {
                        lemma_overflows_prefix(start, certs@, i + 1, *info, *env);
                    }
                    return false;
                }
                let input = clone_input(&certs[i]);
                match store_certificate(&mut scratch, env, info, input) {
                    Ok(_) => {},
                    Err(_) => {
                        proof {
                            lemma_overflows_after_error(start, certs@, i + 1, *info, *env);
                        }
                        return true;
                    },
                }
                i = i + 1;
            }
            assert(certs@.take(i as int) =~= certs@);
            true
        },
        _ => true,
    }
}

/// Refuses a sender that is not on the issuer allowlist.
fn ensure_issuer(registry: &Registry, sender: &str) -> (r: Result<(), ContractError>)
    ensures
        r is Ok <==> registry@.issuers.contains(sender@),
        r is Err ==> r == Err::<(), ContractError>(ContractError::NotIssuer {}),
{
    if !registry.is_issuer(sender) {
        return Err(ContractError::NotIssuer {});
    }
    Ok(())
}

/// Checks an input's id and content hash, in that order.
fn validate_input(input: &CertificateInput) -> (r: Result<(), ContractError>)
    ensures
        match input_error(*input) {
            Some(e) => r == Err::<(), ContractError>(e),
            None => r is Ok,
        },
{
    let n = input.cert_id.as_str().unicode_len();
    if n == 0 || n > 128 {
        return Err(ContractError::InvalidCertId {});
    }
    if !is_content_hash(input.content_hash.as_str()) {
        return Err(ContractError::InvalidContentHash {});
    }
    Ok(())
}

/// Why the sender may not govern, if it may not.
fn ensure_owner(registry: &Registry, sender: &str) -> (r: Option<ContractError>)
    ensures
        r == owner_check(registry@, sender@),
{
    match registry.config() {
        None => Some(ContractError::Std(StdError::NotFound { item: StoreItem::Config })),
        Some(c) => if !str_eq(c.owner.as_str(), sender) {
            Some(ContractError::Unauthorized {})
        } else {
            None
        },
    }
}

/// A copy of an input.
fn clone_input(c: &CertificateInput) -> (r: CertificateInput)
    ensures
        r == *c,
{
    CertificateInput {
        cert_id: c.cert_id.clone(),
        institution_id: c.institution_id,
        recipient_id: c.recipient_id,
        template_id: c.template_id,
        content_hash: c.content_hash.clone(),
        metadata_uri: clone_opt_string(&c.metadata_uri),
        issued_at: c.issued_at,
    }
}

/// Stores one certificate issued by the sender and counts it; answers its id.
fn store_certificate(registry: &mut Registry, env: &Env, info: &MessageInfo, input: CertificateInput) -> (r: Result<String, ContractError>)
    requires
        old(registry)@.wf(),
        !overflow_at(old(registry)@, input),
    ensures
        final(registry)@.wf(),
        match store_one(old(registry)@, input, *info, *env) {
            Ok(s) => final(registry)@ == s && (r matches Ok(id) && id@ == input.cert_id@),
            Err(e) => final(registry)@ == old(registry)@ && r == Err::<String, ContractError>(e),
        },
{
    proof {
        reveal(store_one);
    }
    match validate_input(&input) {
        Err(e) => return Err(e),
        Ok(_) => {},
    }
    if registry.find_certificate(input.cert_id.as_str()).is_some() {
        return Err(ContractError::DuplicateCertificate { cert_id: input.cert_id });
    }
    if registry.config().is_none() {
        return Err(ContractError::Std(StdError::NotFound { item: StoreItem::Config }));
    }
    let id = input.cert_id.clone();
    let issued_at = match input.issued_at {
        Some(t) => t,
        None => env.block_time,
    };
    let c = Certificate {
        cert_id: input.cert_id,
        institution_id: input.institution_id,
        recipient_id: input.recipient_id,
        template_id: input.template_id,
        content_hash: input.content_hash,
        metadata_uri: input.metadata_uri,
        issued_at,
        issued_by: info.sender.clone(),
        revoked: false,
        revoked_at: None,
        revoke_reason: None,
    };
    assert(c == new_certificate(input, *info, *env));
    registry.insert_certificate(c);
    registry.bump_total_issued();
    proof {
        reveal(store_one);
    }
    Ok(id)
}

/// Anchors one certificate. Issuer-only.
fn execute_issue(registry: &mut Registry, env: &Env, info: &MessageInfo, cert: CertificateInput) -> (r: Result<Response, ContractError>)
    requires
        old(registry)@.wf(),
        !overflows(old(registry)@, *info, *env, ExecuteMsg::Issue { cert }),
    ensures
        final(registry)@.wf(),
        match execute_state(old(registry)@, *info, *env, ExecuteMsg::Issue { cert }, Seq::empty()) {
            Ok(s) => final(registry)@ == s
                && (r matches Ok(resp) && resp@ == execute_response(ExecuteMsg::Issue { cert }, Seq::empty())),
            Err(e) => final(registry)@ == old(registry)@ && r == Err::<Response, ContractError>(e),
        },
{
    match ensure_issuer(registry, info.sender.as_str()) {
        Err(e) => return Err(e),
        Ok(_) => {},
    }
    let ghost input = cert;
    let institution = cert.institution_id;
    let recipient = cert.recipient_id;
    let content_hash = cert.content_hash.clone();
    let id = match store_certificate(registry, env, info, cert) {
        Ok(id) => id,
        Err(e) => return Err(e),
    };
    let resp = Response::new()
        .add_attribute("action", String::from_str("issue"))
        .add_attribute("cert_id", id)
        .add_attribute("institution_id", decimal_string(institution))
        .add_attribute("recipient_id", decimal_string(recipient))
        .add_attribute("content_hash", content_hash);
    assert(resp@ =~= execute_response(ExecuteMsg::Issue { cert: input }, Seq::empty()));
    Ok(resp)
}

/// Anchors up to `MAX_BATCH_SIZE` certificates, all or none. Issuer-only.
fn execute_issue_batch(registry: &mut Registry, env: &Env, info: &MessageInfo, certs: Vec<CertificateInput>) -> (r: Result<Response, ContractError>)
    requires
        old(registry)@.wf(),
        !overflows(old(registry)@, *info, *env, ExecuteMsg::IssueBatch { certs }),
    ensures
        final(registry)@.wf(),
        match execute_state(old(registry)@, *info, *env, ExecuteMsg::IssueBatch { certs }, Seq::empty()) {
            Ok(s) => final(registry)@ == s
                && (r matches Ok(resp) && resp@ == execute_response(ExecuteMsg::IssueBatch { certs }, Seq::empty())),
            Err(e) => final(registry)@ == old(registry)@ && r == Err::<Response, ContractError>(e),
        },
{
    match ensure_issuer(registry, info.sender.as_str()) {
        Err(e) => return Err(e),
        Ok(_) => {},
    }
    if certs.len() == 0 {
        return Err(ContractError::EmptyBatch {});
    }
    if certs.len() > MAX_BATCH_SIZE {
        return Err(ContractError::BatchTooLarge { size: certs.len(), max: MAX_BATCH_SIZE });
    }
    let ghost start = registry@;
    let mut scratch = registry.clone();
    let mut ids: Vec<String> = Vec::new();
    assert(certs@.take(0) =~= Seq::<CertificateInput>::empty());
    let mut i: usize = 0;
    while i < certs.len()
        invariant
            i <= certs@.len(),
            0 < certs@.len() <= MAX_BATCH_SIZE,
            start.issuers.contains(info.sender@),
            registry@ == start,
            start.wf(),
            !store_all_overflows(start, certs@, *info, *env),
            scratch@.wf(),
            store_all(start, certs@.take(i as int), *info, *env) == Ok::<RegistryView, ContractError>(scratch@),
            views(ids@) == input_ids(certs@.take(i as int)),
        decreases certs.len() - i,
    {
        let input = clone_input(&certs[i]);
        proof {
            lemma_store_all_step(start, certs@, i as int, *info, *env);
            assert(certs@.take(i + 1).drop_last() =~= certs@.take(i as int));
            assert(certs@.take(i + 1).last() == certs@[i as int]);
            if overflow_at(scratch@, certs@[i as int]) {
                lemma_overflows_prefix(start, certs@, i + 1, *info, *env);
            }
        }
        let ghost before_ids = ids@;
        match store_certificate(&mut scratch, env, info, input) {
            Ok(id) => {
                ids.push(id);
                proof {
                    assert(certs@.take(i + 1) =~= certs@.take(i as int).push(certs@[i as int]));
                    assert(input_ids(certs@.take(i + 1)) =~= input_ids(certs@.take(i as int)).push(certs@[i as int].cert_id@));
                    assert(views(ids@) =~= views(before_ids).push(id@));
                }
            },
            Err(e) => {
                proof {
                    lemma_store_all_prefix(start, certs@, i + 1, *info, *env);
                }
                return Err(e);
            },
        }
        i = i + 1;
    }
    assert(certs@.take(i as int) =~= certs@);
    *registry = scratch;
    let count = decimal_string(certs.len() as u64);
    let joined = join_strings(&ids, ",");
    let resp = Response::new()
        .add_attribute("action", String::from_str("issue_batch"))
        .add_attribute("count", count)
        .add_attribute("cert_ids", joined);
    assert(resp@ =~= execute_response(ExecuteMsg::IssueBatch { certs }, Seq::empty()));
    Ok(resp)
}

/// Marks a certificate revoked at the block time, with the reason; the
/// record stays. Issuer-only.
fn execute_revoke(registry: &mut Registry, env: &Env, info: &MessageInfo, cert_id: String, reason: Option<String>) -> (r: Result<Response, ContractError>)
    requires
        old(registry)@.wf(),
    ensures
        final(registry)@.wf(),
        match execute_state(old(registry)@, *info, *env, ExecuteMsg::Revoke { cert_id, reason }, Seq::empty()) {
            Ok(s) => final(registry)@ == s
                && (r matches Ok(resp) && resp@ == execute_response(ExecuteMsg::Revoke { cert_id, reason }, Seq::empty())),
            Err(e) => final(registry)@ == old(registry)@ && r == Err::<Response, ContractError>(e),
        },
{
    match ensure_issuer(registry, info.sender.as_str()) {
        Err(e) => return Err(e),
        Ok(_) => {},
    }
    let ghost id0 = cert_id;
    let ghost reason0 = reason;
    let i = match registry.find_certificate(cert_id.as_str()) {
        None => return Err(ContractError::CertificateNotFound { cert_id }),
        Some(i) => i,
    };
    let current = registry.certificate_at(i);
    if current.revoked {
        return Err(ContractError::AlreadyRevoked { cert_id });
    }
    let mut c = current.clone();
    c.revoked = true;
    c.revoked_at = Some(env.block_time);
    c.revoke_reason = reason;
    assert(c == revoked_certificate(registry@.certificates[i as int], *env, reason0));
    registry.replace_certificate(i, c);
    let resp = Response::new()
        .add_attribute("action", String::from_str("revoke"))
        .add_attribute("cert_id", cert_id);
    assert(resp@ =~= execute_response(ExecuteMsg::Revoke { cert_id: id0, reason: reason0 }, Seq::empty()));
    Ok(resp)
}

/// Changes the issuer allowlist: adds, then removes; refuses to leave it
/// empty. Owner-only.
fn execute_update_issuers(
    registry: &mut Registry,
    info: &MessageInfo,
    add: Vec<String>,
    remove: Vec<String>,
    checks: Vec<AddrCheck>,
) -> (r: Result<Response, ContractError>)
    requires
        old(registry)@.wf(),
        checks@.len() == add@.len() + remove@.len(),
    ensures
        final(registry)@.wf(),
        match owner_check(old(registry)@, info.sender@) {
            Some(e) => final(registry)@ == old(registry)@ && r == Err::<Response, ContractError>(e),
            None => match update_issuers_state(old(registry)@, add@.len() as int, checks@) {
                Ok(s) => final(registry)@ == s && (r matches Ok(resp) && resp@ == execute_response(
                    ExecuteMsg::UpdateIssuers { add, remove },
                    checks@,
                )),
                Err(e) => final(registry)@ == old(registry)@ && r == Err::<Response, ContractError>(e),
            },
        },
{
    match ensure_owner(registry, info.sender.as_str()) {
        Some(e) => return Err(e),
        None => {},
    }
    let ghost start = registry@;
    let n_add = add.len();
    let mut scratch = registry.clone();
    proof {
        assert(checks@.take(0) =~= Seq::<AddrCheck>::empty());
    }
    let mut i: usize = 0;
    while i < n_add
        invariant
            i <= n_add,
            n_add == add@.len(),
            checks@.len() == add@.len() + remove@.len(),
            registry@ == start,
            owner_check(start, info.sender@) is None,
            start.wf(),
            scratch@.wf(),
            first_error(checks@.take(i as int)) is None,
            scratch@ == (RegistryView { issuers: insert_all(start.issuers, checks@.take(i as int)), ..start }),
        decreases n_add - i,
    {
        proof {
            lemma_first_error_step(checks@, i as int);
        }
        match &checks[i] {
            Ok(a) => {
                scratch.insert_issuer(a.clone());
                assert(checks@.take(i + 1).drop_last() =~= checks@.take(i as int));
            },
            Err(e) => {
                proof {
                    lemma_first_error_prefix(checks@, i + 1);
                }
                return Err(ContractError::Std(e.clone()));
            },
        }
        i = i + 1;
    }
    let ghost added = scratch@.issuers;
    assert(checks@.subrange(n_add as int, n_add as int) =~= Seq::<AddrCheck>::empty());
    while i < checks.len()
        invariant
            n_add <= i <= checks@.len(),
            n_add == add@.len(),
            checks@.len() == add@.len() + remove@.len(),
            registry@ == start,
            owner_check(start, info.sender@) is None,
            start.wf(),
            scratch@.wf(),
            added == insert_all(start.issuers, checks@.take(n_add as int)),
            first_error(checks@.take(i as int)) is None,
            scratch@ == (RegistryView {
                issuers: remove_all(added, checks@.subrange(n_add as int, i as int)),
                ..start
            }),
        decreases checks.len() - i,
    {
        proof {
            lemma_first_error_step(checks@, i as int);
        }
        match &checks[i] {
            Ok(a) => {
                scratch.remove_issuer(a.as_str());
                assert(checks@.subrange(n_add as int, i + 1).drop_last() =~= checks@.subrange(n_add as int, i as int));
            },
            Err(e) => {
                proof {
                    lemma_first_error_prefix(checks@, i + 1);
                }
                return Err(ContractError::Std(e.clone()));
            },
        }
        i = i + 1;
    }
    proof {
        assert(checks@.take(i as int) =~= checks@);
        assert(checks@.subrange(n_add as int, i as int) =~= checks@.skip(n_add as int));
    }
    if scratch.issuers().len() == 0 {
        return Err(ContractError::NoIssuersLeft {});
    }
    *registry = scratch;
    let added_list = join_strings(&add, ",");
    let removed_list = join_strings(&remove, ",");
    let resp = Response::new()
        .add_attribute("action", String::from_str("update_issuers"))
        .add_attribute("added", added_list)
        .add_attribute("removed", removed_list);
    assert(resp@ =~= execute_response(ExecuteMsg::UpdateIssuers { add, remove }, checks@));
    Ok(resp)
}

/// Hands governance to a new owner. Owner-only.
fn execute_update_owner(registry: &mut Registry, env: &Env, info: &MessageInfo, new_owner: String, checks: Vec<AddrCheck>) -> (r: Result<Response, ContractError>)
    requires
        old(registry)@.wf(),
        checks@.len() == 1,
    ensures
        final(registry)@.wf(),
        match execute_state(old(registry)@, *info, *env, ExecuteMsg::UpdateOwner { new_owner }, checks@) {
            Ok(s) => final(registry)@ == s && (r matches Ok(resp) && resp@ == execute_response(
                ExecuteMsg::UpdateOwner { new_owner },
                checks@,
            )),
            Err(e) => final(registry)@ == old(registry)@ && r == Err::<Response, ContractError>(e),
        },
{
    match ensure_owner(registry, info.sender.as_str()) {
        Some(e) => return Err(e),
        None => {},
    }
    let total = match registry.config() {
        Some(c) => c.total_issued,
        None => 0,
    };
    match &checks[0] {
        Err(e) => Err(ContractError::Std(e.clone())),
        Ok(a) => {
            registry.set_config(Config { owner: a.clone(), total_issued: total });
            let resp = Response::new()
                .add_attribute("action", String::from_str("update_owner"))
                .add_attribute("new_owner", a.clone());
            assert(resp@ =~= execute_response(ExecuteMsg::UpdateOwner { new_owner }, checks@));
            Ok(resp)
        },
    }
}

/// Runs a state-changing request. On success the state becomes
/// `execute_state(..)` and the answer's attributes are `execute_response(..)`;
/// on refusal the state is left exactly as it was.
pub fn execute(
    registry: &mut Registry,
    env: &Env,
    info: &MessageInfo,
    msg: ExecuteMsg,
    checks: Vec<AddrCheck>,
) -> (r: Result<Response, ContractError>)
    requires
        old(registry)@.wf(),
        checks@.len() == execute_addresses(msg).len(),
        !overflows(old(registry)@, *info, *env, msg),
    ensures
        final(registry)@.wf(),
        match execute_state(old(registry)@, *info, *env, msg, checks@) {
            Ok(s) => final(registry)@ == s && (r matches Ok(resp) && resp@ == execute_response(msg, checks@)),
            Err(e) => final(registry)@ == old(registry)@ && r == Err::<Response, ContractError>(e),
        },
{
    match msg {
        ExecuteMsg::Issue { cert } => execute_issue(registry, env, info, cert),
        ExecuteMsg::IssueBatch { certs } => execute_issue_batch(registry, env, info, certs),
        ExecuteMsg::Revoke { cert_id, reason } => execute_revoke(registry, env, info, cert_id, reason),
        ExecuteMsg::UpdateIssuers { add, remove } => execute_update_issuers(registry, info, add, remove, checks),
        ExecuteMsg::UpdateOwner { new_owner } => execute_update_owner(registry, env, info, new_owner, checks),
    }
}

/// Answers a query.
pub fn query(registry: &Registry, _env: &Env, msg: QueryMsg) -> (r: Result<QueryResponse, StdError>)
    requires
        registry@.wf(),
    ensures
        query_outcome(registry@, msg, r),
{
    match msg {
        QueryMsg::Config {} => match query_config(registry) {
            Ok(c) => Ok(QueryResponse::Config(c)),
            Err(e) => Err(e),
        },
        QueryMsg::Certificate { cert_id } => match query_certificate(registry, cert_id) {
            Ok(c) => Ok(QueryResponse::Certificate(c)),
            Err(e) => Err(e),
        },
        QueryMsg::CertificatesByRecipient { recipient_id, start_after, limit } => Ok(
            QueryResponse::Certificates(query_by_index(registry, IndexKind::Recipient(recipient_id), start_after, limit)),
        ),
        QueryMsg::CertificatesByInstitution { institution_id, start_after, limit } => Ok(
            QueryResponse::Certificates(query_by_index(registry, IndexKind::Institution(institution_id), start_after, limit)),
        ),
    }
}

/// The owner, the issuers in ascending order, and the issuance count.
fn query_config(registry: &Registry) -> (r: Result<ConfigResponse, StdError>)
    ensures
        match registry@.config {
            None => r == Err::<ConfigResponse, StdError>(StdError::NotFound { item: StoreItem::Config }),
            Some((owner, total)) => r matches Ok(c) && c.owner@ == owner && views(c.issuers@) == registry@.issuers
                && c.total_issued == total,
        },
{
    match registry.config() {
        None => Err(StdError::NotFound { item: StoreItem::Config }),
        Some(c) => {
            let issuers = clone_strings(registry.issuers());
            Ok(ConfigResponse { owner: c.owner.clone(), issuers, total_issued: c.total_issued })
        },
    }
}

/// One certificate by id.
fn query_certificate(registry: &Registry, cert_id: String) -> (r: Result<CertificateResponse, StdError>)
    requires
        registry@.wf(),
    ensures
        if has_cert(registry@.certificates, cert_id@) {
            r matches Ok(c) && c.certificate == registry@.certificates[cert_index(registry@.certificates, cert_id@)]
        } else {
            r == Err::<CertificateResponse, StdError>(StdError::NotFound { item: StoreItem::Certificate })
        },
{
    match registry.find_certificate(cert_id.as_str()) {
        None => Err(StdError::NotFound { item: StoreItem::Certificate }),
        Some(i) => Ok(CertificateResponse { certificate: registry.certificate_at(i).clone() }),
    }
}

/// Whether a record is listed under the index.
fn listed(c: &Certificate, kind: &IndexKind) -> (r: bool)
    ensures
        r == in_index(*c, *kind),
{
    match kind {
        IndexKind::Recipient(id) => c.recipient_id == *id,
        IndexKind::Institution(id) => c.institution_id == *id,
    }
}

/// Whether a record's id comes strictly after the page's start.
fn after(c: &Certificate, start: &Option<String>) -> (r: bool)
    ensures
        r == after_start(*c, opt_view(*start)),
{
    match start {
        None => true,
        Some(st) => crate::order::bytes_lt(st.as_str().as_bytes(), c.cert_id.as_str().as_bytes()),
    }
}

/// A page of the records under an index, ascending by id.
pub fn query_by_index(registry: &Registry, kind: IndexKind, start_after: Option<String>, limit: Option<u32>) -> (r: CertificatesResponse)
    ensures
        r.certificates@ == page(registry@.certificates, kind, opt_view(start_after), effective_limit(limit)),
{
    let l: u32 = match limit {
        Some(l) => l,
        None => DEFAULT_QUERY_LIMIT,
    };
    let l: u32 = if l < MAX_QUERY_LIMIT { l } else { MAX_QUERY_LIMIT };
    let lim = l as usize;
    assert(lim == effective_limit(limit));
    let certs = registry.certificates();
    let ghost st = opt_view(start_after);
    let mut out: Vec<Certificate> = Vec::new();
    let mut i: usize = 0;
    assert(certs@.take(0) =~= Seq::<Certificate>::empty());
    while i < certs.len()
        invariant
            i <= certs@.len(),
            st == opt_view(start_after),
            out@ == page(certs@.take(i as int), kind, st, lim as nat),
        decreases certs.len() - i,
    {
        let c = &certs[i];
        let ghost m = matching(certs@.take(i as int), kind, st);
        proof {
            assert(certs@.take(i + 1).drop_last() =~= certs@.take(i as int));
            assert(certs@.take(i + 1).last() == *c);
        }
        let ghost before = out@;
        if listed(c, &kind) && after(c, &start_after) {
            if out.len() < lim {
                out.push(c.clone());
                assert(out@ =~= m.push(*c));
            } else {
                assert(m.push(*c).take(lim as int) =~= m.take(lim as int));
            }
        }
        i = i + 1;
    }
    assert(certs@.take(i as int) =~= certs@);
    CertificatesResponse { certificates: out }
}

} // verus!
