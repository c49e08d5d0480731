use cosmwasm_std::testing::{mock_env, MockApi};
use cosmwasm_std::{Api, Timestamp};

use kruuu_certificate_registry::contract::{
    execute, execute_address_list, instantiate, instantiate_address_list, migrate, query,
    MAX_BATCH_SIZE,
};
use kruuu_certificate_registry::error::{ContractError, StdError};
use kruuu_certificate_registry::msg::{
    CertificateInput, CertificateResponse, CertificatesResponse, ConfigResponse, Env, ExecuteMsg,
    InstantiateMsg, MessageInfo, MigrateMsg, QueryMsg, QueryResponse, Response,
};
use kruuu_certificate_registry::state::Registry;
use kruuu_certificate_registry::text::hash;

struct TestEnv {
    api: MockApi,
    env: Env,
    reg: Registry,
    owner: String,
    issuer: String,
    rando: String,
}

fn validate(api: &MockApi, addrs: Vec<String>) -> Vec<Result<String, StdError>> {
    addrs
        .iter()
        .map(|a| {
            api.addr_validate(a)
                .map(|v| v.to_string())
                .map_err(|e| StdError::GenericErr { msg: e.to_string() })
        })
        .collect()
}

fn cert(id: &str, institution: u64, recipient: u64) -> CertificateInput {
    CertificateInput {
        cert_id: id.to_string(),
        institution_id: institution,
        recipient_id: recipient,
        template_id: 1,
        content_hash: hash(7),
        metadata_uri: Some(format!("ipfs://meta/{id}")),
        issued_at: None,
    }
}

fn setup() -> TestEnv {
    let api = MockApi::default();
    let owner = api.addr_make("owner-multisig").to_string();
    let issuer = api.addr_make("relayer").to_string();
    let rando = api.addr_make("someone-else").to_string();
    let env = Env { block_time: mock_env().block.time };

    let msg = InstantiateMsg { owner: owner.clone(), issuers: vec![issuer.clone()] };
    let checks = validate(&api, instantiate_address_list(&msg));
    let info = MessageInfo { sender: owner.clone() };
    let (reg, _) = instantiate(&env, &info, msg, checks).unwrap();

    TestEnv { api, env, reg, owner, issuer, rando }
}

fn exec(t: &mut TestEnv, sender: &str, msg: ExecuteMsg) -> Result<Response, ContractError> {
    let checks = validate(&t.api, execute_address_list(&msg));
    let info = MessageInfo { sender: sender.to_string() };
    execute(&mut t.reg, &t.env, &info, msg, checks)
}

fn get_cert(t: &TestEnv, cert_id: &str) -> CertificateResponse {
    match query(&t.reg, &t.env, QueryMsg::Certificate { cert_id: cert_id.to_string() }).unwrap() {
        QueryResponse::Certificate(c) => c,
        _ => panic!("not a certificate answer"),
    }
}

fn get_config(t: &TestEnv) -> ConfigResponse {
    match query(&t.reg, &t.env, QueryMsg::Config {}).unwrap() {
        QueryResponse::Config(c) => c,
        _ => panic!("not a config answer"),
    }
}

fn get_list(t: &TestEnv, msg: QueryMsg) -> CertificatesResponse {
    match query(&t.reg, &t.env, msg).unwrap() {
        QueryResponse::Certificates(c) => c,
        _ => panic!("not a list answer"),
    }
}

#[test]
fn issue_and_query_roundtrip() {
    let mut env = setup();
    let issuer = env.issuer.clone();

    exec(&mut env, &issuer, ExecuteMsg::Issue { cert: cert("cert:1", 100, 200) }).unwrap();

    let res = get_cert(&env, "cert:1");
    assert_eq!(res.certificate.institution_id, 100);
    assert_eq!(res.certificate.recipient_id, 200);
    assert_eq!(res.certificate.issued_by, env.issuer);
    assert!(!res.certificate.revoked);
    // issued_at defaulted to block time
    assert!(res.certificate.issued_at > Timestamp::from_seconds(0));

    let config = get_config(&env);
    assert_eq!(config.total_issued, 1);
}

#[test]
fn non_issuer_cannot_issue() {
    let mut env = setup();
    let rando = env.rando.clone();
    let owner = env.owner.clone();

    let err = exec(&mut env, &rando, ExecuteMsg::Issue { cert: cert("cert:1", 100, 200) }).unwrap_err();
    assert_eq!(err, ContractError::NotIssuer {});

    // even the owner is not an issuer by default — governance and issuance
    // are deliberately separate powers
    let err = exec(&mut env, &owner, ExecuteMsg::Issue { cert: cert("cert:1", 100, 200) }).unwrap_err();
    assert_eq!(err, ContractError::NotIssuer {});
}

#[test]
fn duplicate_cert_id_is_rejected() {
    let mut env = setup();
    let issuer = env.issuer.clone();

    exec(&mut env, &issuer, ExecuteMsg::Issue { cert: cert("cert:1", 100, 200) }).unwrap();

    let err = exec(&mut env, &issuer, ExecuteMsg::Issue { cert: cert("cert:1", 101, 201) }).unwrap_err();
    assert_eq!(err, ContractError::DuplicateCertificate { cert_id: "cert:1".to_string() });
}

#[test]
fn input_validation() {
    let mut env = setup();
    let issuer = env.issuer.clone();

    let mut bad_hash = cert("cert:1", 1, 2);
    bad_hash.content_hash = "not-a-hash".to_string();
    let err = exec(&mut env, &issuer, ExecuteMsg::Issue { cert: bad_hash }).unwrap_err();
    assert_eq!(err, ContractError::InvalidContentHash {});

    let mut bad_id = cert("", 1, 2);
    bad_id.cert_id = String::new();
    let err = exec(&mut env, &issuer, ExecuteMsg::Issue { cert: bad_id }).unwrap_err();
    assert_eq!(err, ContractError::InvalidCertId {});
}

#[test]
fn batch_issue_with_backfill_dates() {
    let mut env = setup();
    let issuer = env.issuer.clone();

    let mut old = cert("cert:old", 1, 2);
    old.issued_at = Some(Timestamp::from_seconds(1_600_000_000));

    exec(&mut env, &issuer, ExecuteMsg::IssueBatch { certs: vec![old, cert("cert:new", 1, 3)] }).unwrap();

    let res = get_cert(&env, "cert:old");
    assert_eq!(res.certificate.issued_at, Timestamp::from_seconds(1_600_000_000));

    let config = get_config(&env);
    assert_eq!(config.total_issued, 2);
}

#[test]
fn batch_limits() {
    let mut env = setup();
    let issuer = env.issuer.clone();

    let err = exec(&mut env, &issuer, ExecuteMsg::IssueBatch { certs: vec![] }).unwrap_err();
    assert_eq!(err, ContractError::EmptyBatch {});

    let too_many: Vec<_> = (0..=MAX_BATCH_SIZE).map(|i| cert(&format!("cert:{i}"), 1, 1)).collect();
    let err = exec(&mut env, &issuer, ExecuteMsg::IssueBatch { certs: too_many }).unwrap_err();
    assert_eq!(err, ContractError::BatchTooLarge { size: MAX_BATCH_SIZE + 1, max: MAX_BATCH_SIZE });
}

#[test]
fn batch_is_atomic() {
    let mut env = setup();
    let issuer = env.issuer.clone();

    // second entry duplicates the first — the whole batch must fail
    let err = exec(
        &mut env,
        &issuer,
        ExecuteMsg::IssueBatch { certs: vec![cert("cert:1", 1, 2), cert("cert:1", 1, 3)] },
    )
    .unwrap_err();
    assert_eq!(err, ContractError::DuplicateCertificate { cert_id: "cert:1".to_string() });

    let config = get_config(&env);
    assert_eq!(config.total_issued, 0);
}

#[test]
fn revoke_keeps_record() {
    let mut env = setup();
    let issuer = env.issuer.clone();

    exec(&mut env, &issuer, ExecuteMsg::Issue { cert: cert("cert:1", 100, 200) }).unwrap();

    exec(
        &mut env,
        &issuer,
        ExecuteMsg::Revoke { cert_id: "cert:1".to_string(), reason: Some("issued in error".to_string()) },
    )
    .unwrap();

    let res = get_cert(&env, "cert:1");
    assert!(res.certificate.revoked);
    assert_eq!(res.certificate.revoke_reason, Some("issued in error".to_string()));

    // double-revoke refused
    let err = exec(&mut env, &issuer, ExecuteMsg::Revoke { cert_id: "cert:1".to_string(), reason: None })
        .unwrap_err();
    assert_eq!(err, ContractError::AlreadyRevoked { cert_id: "cert:1".to_string() });
}

#[test]
fn recipient_and_institution_indexes() {
    let mut env = setup();
    let issuer = env.issuer.clone();

    exec(
        &mut env,
        &issuer,
        ExecuteMsg::IssueBatch {
            certs: vec![
                cert("cert:a", 10, 500),
                cert("cert:b", 10, 500),
                cert("cert:c", 11, 500),
                cert("cert:d", 10, 600),
            ],
        },
    )
    .unwrap();

    let by_recipient = get_list(
        &env,
        QueryMsg::CertificatesByRecipient { recipient_id: 500, start_after: None, limit: None },
    );
    assert_eq!(by_recipient.certificates.len(), 3);

    let by_institution = get_list(
        &env,
        QueryMsg::CertificatesByInstitution { institution_id: 10, start_after: None, limit: None },
    );
    assert_eq!(by_institution.certificates.len(), 3);

    // pagination: page of 2, then the rest
    let page1 = get_list(
        &env,
        QueryMsg::CertificatesByRecipient { recipient_id: 500, start_after: None, limit: Some(2) },
    );
    assert_eq!(page1.certificates.len(), 2);

    let page2 = get_list(
        &env,
        QueryMsg::CertificatesByRecipient {
            recipient_id: 500,
            start_after: Some(page1.certificates[1].cert_id.clone()),
            limit: Some(2),
        },
    );
    assert_eq!(page2.certificates.len(), 1);
}

#[test]
fn owner_governs_issuers() {
    let mut env = setup();
    let new_issuer = env.api.addr_make("new-relayer").to_string();
    let rando = env.rando.clone();
    let owner = env.owner.clone();
    let issuer = env.issuer.clone();

    // rando cannot touch the allowlist
    let err = exec(
        &mut env,
        &rando,
        ExecuteMsg::UpdateIssuers { add: vec![new_issuer.clone()], remove: vec![] },
    )
    .unwrap_err();
    assert_eq!(err, ContractError::Unauthorized {});

    // owner rotates the relayer
    exec(
        &mut env,
        &owner,
        ExecuteMsg::UpdateIssuers { add: vec![new_issuer.clone()], remove: vec![issuer.clone()] },
    )
    .unwrap();

    // old key can no longer issue, new one can
    let err = exec(&mut env, &issuer, ExecuteMsg::Issue { cert: cert("cert:1", 1, 2) }).unwrap_err();
    assert_eq!(err, ContractError::NotIssuer {});

    exec(&mut env, &new_issuer, ExecuteMsg::Issue { cert: cert("cert:1", 1, 2) }).unwrap();

    // cannot empty the allowlist
    let config = get_config(&env);
    let err = exec(&mut env, &owner, ExecuteMsg::UpdateIssuers { add: vec![], remove: config.issuers })
        .unwrap_err();
    assert_eq!(err, ContractError::NoIssuersLeft {});
}

#[test]
fn ownership_transfer() {
    let mut env = setup();
    let new_owner = env.api.addr_make("new-multisig").to_string();
    let rando = env.rando.clone();
    let owner = env.owner.clone();

    let err = exec(&mut env, &rando, ExecuteMsg::UpdateOwner { new_owner: new_owner.clone() }).unwrap_err();
    assert_eq!(err, ContractError::Unauthorized {});

    exec(&mut env, &owner, ExecuteMsg::UpdateOwner { new_owner: new_owner.clone() }).unwrap();

    let config = get_config(&env);
    assert_eq!(config.owner, new_owner);

    // the old owner is out
    let err = exec(&mut env, &owner, ExecuteMsg::UpdateIssuers { add: vec![], remove: vec![] }).unwrap_err();
    assert_eq!(err, ContractError::Unauthorized {});
}

#[test]
fn admin_can_migrate_and_state_survives() {
    let mut env = setup();
    let issuer = env.issuer.clone();

    exec(&mut env, &issuer, ExecuteMsg::Issue { cert: cert("cert:1", 10, 20) }).unwrap();

    let e = Env { block_time: env.env.block_time };
    migrate(&mut env.reg, &e, MigrateMsg {}).unwrap();

    let stored = get_cert(&env, "cert:1").certificate;
    assert_eq!(stored.cert_id, "cert:1");
    let config = get_config(&env);
    assert_eq!(config.total_issued, 1);
    assert_eq!(config.owner, env.owner.to_string());
    assert_eq!(config.issuers, vec![env.issuer.to_string()]);
}

#[test]
fn migrate_rejects_foreign_contract_state() {
    let mut reg = Registry::new();
    reg.set_contract_version("crates.io:some-other-contract".to_string(), "9.9.9".to_string());

    let env = Env { block_time: mock_env().block.time };
    let err = migrate(&mut reg, &env, MigrateMsg {}).unwrap_err();
    assert!(matches!(err, ContractError::InvalidMigration { .. }));
}
