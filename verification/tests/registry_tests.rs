use cosmwasm_std::testing::{mock_env, MockApi};
use cosmwasm_std::{Api, Timestamp};

use kruuu_certificate_registry::contract::{
    execute, execute_address_list, instantiate, instantiate_address_list, migrate, query,
    query_by_index, room_for,
};
use kruuu_certificate_registry::spec::IndexKind;
use kruuu_certificate_registry::error::{ContractError, StdError, StoreItem};
use kruuu_certificate_registry::msg::{
    CertificateInput, Env, ExecuteMsg, InstantiateMsg, MessageInfo, MigrateMsg, QueryMsg,
    QueryResponse, Response,
};
use kruuu_certificate_registry::state::{Certificate, Config, ContractVersion, Registry};
use kruuu_certificate_registry::text::{decimal_string, hash, is_content_hash, join_strings};

fn api() -> MockApi {
    MockApi::default()
}

fn block() -> Env {
    Env { block_time: mock_env().block.time }
}

fn validate(addrs: Vec<String>) -> Vec<Result<String, StdError>> {
    let api = api();
    addrs
        .iter()
        .map(|a| {
            api.addr_validate(a)
                .map(|v| v.to_string())
                .map_err(|e| StdError::GenericErr { msg: e.to_string() })
        })
        .collect()
}

fn addr(name: &str) -> String {
    api().addr_make(name).to_string()
}

fn input(id: &str, institution: u64, recipient: u64) -> CertificateInput {
    CertificateInput {
        cert_id: id.to_string(),
        institution_id: institution,
        recipient_id: recipient,
        template_id: 1,
        content_hash: hash(7),
        metadata_uri: None,
        issued_at: None,
    }
}

fn attrs(r: &Response) -> Vec<(String, String)> {
    r.attributes.iter().map(|a| (a.key.clone(), a.value.clone())).collect()
}

fn pairs(v: &[(&str, &str)]) -> Vec<(String, String)> {
    v.iter().map(|(k, v)| (k.to_string(), v.to_string())).collect()
}

fn setup_with(issuers: Vec<String>) -> (Registry, String) {
    let owner = addr("owner");
    let msg = InstantiateMsg { owner: owner.clone(), issuers };
    let checks = validate(instantiate_address_list(&msg));
    let (reg, _) = instantiate(&block(), &MessageInfo { sender: owner.clone() }, msg, checks).unwrap();
    (reg, owner)
}

fn run(reg: &mut Registry, sender: &str, msg: ExecuteMsg) -> Result<Response, ContractError> {
    let checks = validate(execute_address_list(&msg));
    execute(reg, &block(), &MessageInfo { sender: sender.to_string() }, msg, checks)
}

fn ids(reg: &Registry, msg: QueryMsg) -> Vec<String> {
    match query(reg, &block(), msg).unwrap() {
        QueryResponse::Certificates(c) => c.certificates.into_iter().map(|c| c.cert_id).collect(),
        _ => panic!("not a list"),
    }
}

fn config(reg: &Registry) -> (String, Vec<String>, u64) {
    match query(reg, &block(), QueryMsg::Config {}).unwrap() {
        QueryResponse::Config(c) => (c.owner, c.issuers, c.total_issued),
        _ => panic!("not a config"),
    }
}

fn certificate(reg: &Registry, id: &str) -> Certificate {
    match query(reg, &block(), QueryMsg::Certificate { cert_id: id.to_string() }).unwrap() {
        QueryResponse::Certificate(c) => c.certificate,
        _ => panic!("not a certificate"),
    }
}

#[test]
fn instantiate_answers_and_sorts_issuers() {
    let owner = addr("owner");
    let a = addr("issuer-a");
    let b = addr("issuer-b");
    let msg = InstantiateMsg { owner: owner.clone(), issuers: vec![b.clone(), a.clone(), b.clone()] };
    let checks = validate(instantiate_address_list(&msg));
    let (reg, resp) = instantiate(&block(), &MessageInfo { sender: owner.clone() }, msg, checks).unwrap();
    let joined = format!("{b},{a},{b}");
    assert_eq!(
        attrs(&resp),
        pairs(&[("action", "instantiate"), ("owner", owner.as_str()), ("issuers", joined.as_str())])
    );
    let (o, issuers, total) = config(&reg);
    assert_eq!(o, owner);
    let mut expected = vec![a, b];
    expected.sort();
    assert_eq!(issuers, expected);
    assert_eq!(total, 0);
    let v = reg.contract_version().unwrap();
    assert_eq!(v.contract, "crates.io:kruuu-certificate-registry");
}

#[test]
fn instantiate_refusals() {
    // an empty issuer list is refused before any address is looked at
    let msg = InstantiateMsg { owner: "not an address".to_string(), issuers: vec![] };
    let checks = validate(instantiate_address_list(&msg));
    let err = instantiate(&block(), &MessageInfo { sender: "x".to_string() }, msg, checks).unwrap_err();
    assert_eq!(err, ContractError::NoIssuersLeft {});

    let msg = InstantiateMsg { owner: "not an address".to_string(), issuers: vec![addr("i")] };
    let checks = validate(instantiate_address_list(&msg));
    let err = instantiate(&block(), &MessageInfo { sender: "x".to_string() }, msg, checks).unwrap_err();
    assert!(matches!(err, ContractError::Std(StdError::GenericErr { .. })));

    let msg = InstantiateMsg { owner: addr("owner"), issuers: vec![addr("i"), "Bad".to_string()] };
    let checks = validate(instantiate_address_list(&msg));
    let err = instantiate(&block(), &MessageInfo { sender: "x".to_string() }, msg, checks).unwrap_err();
    assert!(matches!(err, ContractError::Std(StdError::GenericErr { .. })));
}

#[test]
fn issue_answers_its_attributes() {
    let issuer = addr("issuer");
    let (mut reg, _) = setup_with(vec![issuer.clone()]);
    let resp = run(&mut reg, &issuer, ExecuteMsg::Issue { cert: input("cert:1", 100, 1234567890) }).unwrap();
    let h = hash(7);
    assert_eq!(
        attrs(&resp),
        pairs(&[
            ("action", "issue"),
            ("cert_id", "cert:1"),
            ("institution_id", "100"),
            ("recipient_id", "1234567890"),
            ("content_hash", h.as_str()),
        ])
    );
    let c = certificate(&reg, "cert:1");
    assert_eq!(c.issued_at, mock_env().block.time);
    assert_eq!(c.issued_by, issuer);
    assert_eq!(c.template_id, 1);
    assert_eq!(c.revoked_at, None);
}

#[test]
fn batch_answers_count_and_ids() {
    let issuer = addr("issuer");
    let (mut reg, _) = setup_with(vec![issuer.clone()]);
    let resp = run(
        &mut reg,
        &issuer,
        ExecuteMsg::IssueBatch { certs: vec![input("cert:b", 1, 1), input("cert:a", 1, 1)] },
    )
    .unwrap();
    assert_eq!(
        attrs(&resp),
        pairs(&[("action", "issue_batch"), ("count", "2"), ("cert_ids", "cert:b,cert:a")])
    );
    // listed in key order, not in issuance order
    assert_eq!(
        ids(&reg, QueryMsg::CertificatesByRecipient { recipient_id: 1, start_after: None, limit: None }),
        vec!["cert:a".to_string(), "cert:b".to_string()]
    );
}

#[test]
fn cert_id_length_is_counted_in_characters() {
    let issuer = addr("issuer");
    let (mut reg, _) = setup_with(vec![issuer.clone()]);
    let ok_id = "x".repeat(128);
    run(&mut reg, &issuer, ExecuteMsg::Issue { cert: input(&ok_id, 1, 1) }).unwrap();
    let long_id = "x".repeat(129);
    let err = run(&mut reg, &issuer, ExecuteMsg::Issue { cert: input(&long_id, 1, 1) }).unwrap_err();
    assert_eq!(err, ContractError::InvalidCertId {});
    // 100 characters of two bytes each: 200 bytes, 100 characters
    let accented = "é".repeat(100);
    run(&mut reg, &issuer, ExecuteMsg::Issue { cert: input(&accented, 1, 2) }).unwrap();
    // 128 characters of three bytes each
    let wide = "€".repeat(128);
    run(&mut reg, &issuer, ExecuteMsg::Issue { cert: input(&wide, 1, 1) }).unwrap();
    let too_wide = "€".repeat(129);
    let err = run(&mut reg, &issuer, ExecuteMsg::Issue { cert: input(&too_wide, 1, 1) }).unwrap_err();
    assert_eq!(err, ContractError::InvalidCertId {});
}

#[test]
fn content_hash_shape() {
    assert!(is_content_hash(&hash(0)));
    assert!(!is_content_hash(&hash(7).to_uppercase().replace("0", "A")));
    assert!(!is_content_hash(&"a".repeat(63)));
    assert!(!is_content_hash(&"a".repeat(65)));
    assert!(is_content_hash(&"0123456789abcdef".repeat(4)));
    assert!(!is_content_hash(&"0123456789abcdeg".repeat(4)));

    let issuer = addr("issuer");
    let (mut reg, _) = setup_with(vec![issuer.clone()]);
    let mut c = input("cert:1", 1, 1);
    c.content_hash = "ABCDEF".repeat(10) + "ABCD";
    let err = run(&mut reg, &issuer, ExecuteMsg::Issue { cert: c }).unwrap_err();
    assert_eq!(err, ContractError::InvalidContentHash {});
    // the id is checked before the hash
    let mut c = input("", 1, 1);
    c.content_hash = "bad".to_string();
    let err = run(&mut reg, &issuer, ExecuteMsg::Issue { cert: c }).unwrap_err();
    assert_eq!(err, ContractError::InvalidCertId {});
}

#[test]
fn hash_is_zero_padded_lowercase_hex() {
    assert_eq!(hash(7), format!("{:064x}", 7u128));
    assert_eq!(hash(255), format!("{:064x}", 255u128));
    assert_eq!(hash(0), "0".repeat(64));
    assert_eq!(hash(171).len(), 64);
    assert!(hash(171).ends_with("ab"));
}

#[test]
fn decimal_and_join() {
    assert_eq!(decimal_string(0), "0");
    assert_eq!(decimal_string(9), "9");
    assert_eq!(decimal_string(10), "10");
    assert_eq!(decimal_string(u64::MAX), u64::MAX.to_string());
    assert_eq!(join_strings(&vec![], ","), "");
    assert_eq!(join_strings(&vec!["a".to_string()], ","), "a");
    assert_eq!(join_strings(&vec!["a".to_string(), "".to_string(), "c".to_string()], ","), "a,,c");
}

#[test]
fn revoke_records_time_and_reason() {
    let issuer = addr("issuer");
    let (mut reg, _) = setup_with(vec![issuer.clone()]);
    run(&mut reg, &issuer, ExecuteMsg::Issue { cert: input("cert:1", 1, 1) }).unwrap();
    let before = certificate(&reg, "cert:1");
    let resp = run(&mut reg, &issuer, ExecuteMsg::Revoke { cert_id: "cert:1".to_string(), reason: None }).unwrap();
    assert_eq!(attrs(&resp), pairs(&[("action", "revoke"), ("cert_id", "cert:1")]));
    let after = certificate(&reg, "cert:1");
    assert!(after.revoked);
    assert_eq!(after.revoked_at, Some(mock_env().block.time));
    assert_eq!(after.revoke_reason, None);
    assert_eq!(after.content_hash, before.content_hash);
    assert_eq!(after.issued_at, before.issued_at);

    let err = run(&mut reg, &issuer, ExecuteMsg::Revoke { cert_id: "cert:2".to_string(), reason: None }).unwrap_err();
    assert_eq!(err, ContractError::CertificateNotFound { cert_id: "cert:2".to_string() });

    let rando = addr("rando");
    let err = run(&mut reg, &rando, ExecuteMsg::Revoke { cert_id: "cert:1".to_string(), reason: None }).unwrap_err();
    assert_eq!(err, ContractError::NotIssuer {});
}

#[test]
fn records_are_kept_across_requests() {
    let issuer = addr("issuer");
    let (mut reg, owner) = setup_with(vec![issuer.clone()]);
    run(&mut reg, &issuer, ExecuteMsg::IssueBatch { certs: vec![input("a", 1, 2), input("b", 3, 4)] }).unwrap();
    let b_before = certificate(&reg, "b");
    run(&mut reg, &issuer, ExecuteMsg::Revoke { cert_id: "a".to_string(), reason: Some("r".to_string()) }).unwrap();
    let a_revoked = certificate(&reg, "a");
    run(&mut reg, &issuer, ExecuteMsg::Issue { cert: input("c", 5, 6) }).unwrap();
    run(&mut reg, &owner, ExecuteMsg::UpdateOwner { new_owner: addr("owner2") }).unwrap();
    assert_eq!(certificate(&reg, "b"), b_before);
    assert_eq!(certificate(&reg, "a"), a_revoked);
    let (_, _, total) = config(&reg);
    assert_eq!(total, 3);
    assert_eq!(reg.certificates().len(), 3);
}

#[test]
fn failed_requests_change_nothing() {
    let issuer = addr("issuer");
    let (mut reg, owner) = setup_with(vec![issuer.clone()]);
    run(&mut reg, &issuer, ExecuteMsg::Issue { cert: input("a", 1, 1) }).unwrap();
    let before = config(&reg);
    let certs_before = reg.certificates().clone();

    // the batch fails on its last, invalid entry
    let mut bad = input("z", 1, 1);
    bad.content_hash = String::new();
    let err = run(&mut reg, &issuer, ExecuteMsg::IssueBatch { certs: vec![input("b", 1, 1), bad] }).unwrap_err();
    assert_eq!(err, ContractError::InvalidContentHash {});

    // removing the only issuer is refused, even after an add of an invalid address is ignored
    let err = run(
        &mut reg,
        &owner,
        ExecuteMsg::UpdateIssuers { add: vec![], remove: vec![issuer.clone()] },
    )
    .unwrap_err();
    assert_eq!(err, ContractError::NoIssuersLeft {});

    // the first invalid address fails the change
    let err = run(
        &mut reg,
        &owner,
        ExecuteMsg::UpdateIssuers { add: vec![addr("x"), "Nope".to_string()], remove: vec![] },
    )
    .unwrap_err();
    assert!(matches!(err, ContractError::Std(StdError::GenericErr { .. })));

    let err = run(&mut reg, &owner, ExecuteMsg::UpdateOwner { new_owner: "Nope".to_string() }).unwrap_err();
    assert!(matches!(err, ContractError::Std(StdError::GenericErr { .. })));

    assert_eq!(config(&reg), before);
    assert_eq!(reg.certificates(), &certs_before);
}

#[test]
fn owner_check_comes_before_address_checks() {
    let issuer = addr("issuer");
    let (mut reg, _) = setup_with(vec![issuer.clone()]);
    let rando = addr("rando");
    let err = run(
        &mut reg,
        &rando,
        ExecuteMsg::UpdateIssuers { add: vec!["Nope".to_string()], remove: vec![] },
    )
    .unwrap_err();
    assert_eq!(err, ContractError::Unauthorized {});
}

#[test]
fn update_issuers_answers() {
    let issuer = addr("issuer");
    let (mut reg, owner) = setup_with(vec![issuer.clone()]);
    let n = addr("new");
    let resp = run(
        &mut reg,
        &owner,
        ExecuteMsg::UpdateIssuers { add: vec![n.clone(), n.clone()], remove: vec![addr("unknown")] },
    )
    .unwrap();
    let added = format!("{n},{n}");
    let removed = addr("unknown");
    assert_eq!(
        attrs(&resp),
        pairs(&[("action", "update_issuers"), ("added", added.as_str()), ("removed", removed.as_str())])
    );
    let (_, issuers, _) = config(&reg);
    let mut expected = vec![issuer, n];
    expected.sort();
    assert_eq!(issuers, expected);

    let o2 = addr("owner2");
    let resp = run(&mut reg, &owner, ExecuteMsg::UpdateOwner { new_owner: o2.clone() }).unwrap();
    assert_eq!(attrs(&resp), pairs(&[("action", "update_owner"), ("new_owner", o2.as_str())]));
}

#[test]
fn pages_follow_byte_order_and_limits() {
    let issuer = addr("issuer");
    let (mut reg, _) = setup_with(vec![issuer.clone()]);
    for batch in 0..3 {
        let certs: Vec<_> = (0..50).map(|i| input(&format!("cert:{}", batch * 50 + i), 7, 9)).collect();
        run(&mut reg, &issuer, ExecuteMsg::IssueBatch { certs }).unwrap();
    }
    let all = ids(&reg, QueryMsg::CertificatesByInstitution { institution_id: 7, start_after: None, limit: Some(1000) });
    assert_eq!(all.len(), 100);
    let default = ids(&reg, QueryMsg::CertificatesByInstitution { institution_id: 7, start_after: None, limit: None });
    assert_eq!(default.len(), 30);
    // "cert:10" comes before "cert:9" byte by byte
    assert_eq!(&all[0..3], &["cert:0".to_string(), "cert:1".to_string(), "cert:10".to_string()]);
    let mut sorted = all.clone();
    sorted.sort();
    assert_eq!(all, sorted);

    // walking pages of 40 lists every record once, in order
    let mut walked: Vec<String> = vec![];
    let mut start: Option<String> = None;
    loop {
        let page = ids(&reg, QueryMsg::CertificatesByRecipient { recipient_id: 9, start_after: start.clone(), limit: Some(40) });
        if page.is_empty() {
            break;
        }
        start = page.last().cloned();
        walked.extend(page);
    }
    let mut every: Vec<String> = (0..150).map(|i| format!("cert:{i}")).collect();
    every.sort();
    assert_eq!(walked, every);

    assert!(ids(&reg, QueryMsg::CertificatesByRecipient { recipient_id: 8, start_after: None, limit: None }).is_empty());
    assert!(ids(&reg, QueryMsg::CertificatesByRecipient { recipient_id: 9, start_after: None, limit: Some(0) }).is_empty());
}

#[test]
fn queries_before_set_up_and_unknown_ids() {
    let reg = Registry::new();
    let err = query(&reg, &block(), QueryMsg::Config {}).unwrap_err();
    assert_eq!(err, StdError::NotFound { item: StoreItem::Config });
    let err = query(&reg, &block(), QueryMsg::Certificate { cert_id: "x".to_string() }).unwrap_err();
    assert_eq!(err, StdError::NotFound { item: StoreItem::Certificate });

    let mut empty = Registry::new();
    let err = run(&mut empty, "anyone", ExecuteMsg::Issue { cert: input("a", 1, 1) }).unwrap_err();
    assert_eq!(err, ContractError::NotIssuer {});
    let err = run(&mut empty, "anyone", ExecuteMsg::UpdateOwner { new_owner: addr("o") }).unwrap_err();
    assert_eq!(err, ContractError::Std(StdError::NotFound { item: StoreItem::Config }));
}

#[test]
fn migrate_answers_and_requires_a_version() {
    let issuer = addr("issuer");
    let (mut reg, _) = setup_with(vec![issuer.clone()]);
    reg.set_contract_version("crates.io:kruuu-certificate-registry".to_string(), "0.0.9".to_string());
    let resp = migrate(&mut reg, &block(), MigrateMsg {}).unwrap();
    assert_eq!(
        attrs(&resp),
        pairs(&[("action", "migrate"), ("from_version", "0.0.9"), ("to_version", "0.1.0")])
    );
    assert_eq!(reg.contract_version().unwrap().version, "0.1.0");

    let mut fresh = Registry::new();
    let err = migrate(&mut fresh, &block(), MigrateMsg {}).unwrap_err();
    assert_eq!(err, ContractError::Std(StdError::NotFound { item: StoreItem::ContractVersion }));

    let mut foreign = Registry::new();
    foreign.set_contract_version("crates.io:cw20-base".to_string(), "1.0.0".to_string());
    let err = migrate(&mut foreign, &block(), MigrateMsg {}).unwrap_err();
    assert_eq!(
        err,
        ContractError::InvalidMigration {
            expected: "crates.io:kruuu-certificate-registry".to_string(),
            actual: "crates.io:cw20-base".to_string(),
        }
    );
}

#[test]
fn stored_state_round_trips_and_is_checked() {
    let issuer = addr("issuer");
    let (mut reg, _) = setup_with(vec![issuer.clone()]);
    run(&mut reg, &issuer, ExecuteMsg::IssueBatch { certs: vec![input("b", 1, 1), input("a", 1, 1)] }).unwrap();
    let version = reg.contract_version().map(|v| ContractVersion { contract: v.contract.clone(), version: v.version.clone() });
    let cfg = reg.config().map(|c| Config { owner: c.owner.clone(), total_issued: c.total_issued });
    let again = Registry::from_parts(version, cfg, reg.issuers().clone(), reg.certificates().clone()).unwrap();
    assert_eq!(config(&again), config(&reg));

    let unsorted = vec!["b".to_string(), "a".to_string()];
    assert!(Registry::from_parts(None, None, unsorted, vec![]).is_none());
    let dup = vec!["a".to_string(), "a".to_string()];
    assert!(Registry::from_parts(None, None, dup, vec![]).is_none());
    let mut certs = reg.certificates().clone();
    certs.reverse();
    assert!(Registry::from_parts(None, None, vec![], certs).is_none());
}

#[test]
fn issuance_count_overflow_is_detected() {
    let issuer = addr("issuer");
    let by_issuer = MessageInfo { sender: issuer.clone() };
    let by_other = MessageInfo { sender: addr("other") };
    let cfg = Config { owner: addr("owner"), total_issued: u64::MAX };
    let reg = Registry::from_parts(None, Some(cfg), vec![issuer.clone()], vec![]).unwrap();
    // An issuance that would count past the largest count overflows.
    assert!(!room_for(&reg, &block(), &by_issuer, &ExecuteMsg::Issue { cert: input("a", 1, 1) }));
    let batch = ExecuteMsg::IssueBatch { certs: vec![input("a", 1, 1), input("b", 1, 1)] };
    assert!(!room_for(&reg, &block(), &by_issuer, &batch));
    // Requests refused before the count is reached do not overflow.
    assert!(room_for(&reg, &block(), &by_other, &ExecuteMsg::Issue { cert: input("a", 1, 1) }));
    let bad = || {
        let mut c = input("a", 1, 1);
        c.content_hash = "xyz".to_string();
        c
    };
    assert!(room_for(&reg, &block(), &by_issuer, &ExecuteMsg::Issue { cert: bad() }));
    assert!(room_for(&reg, &block(), &by_issuer, &ExecuteMsg::IssueBatch { certs: vec![bad(), input("b", 1, 1)] }));
    assert!(room_for(&reg, &block(), &by_issuer, &ExecuteMsg::IssueBatch { certs: vec![] }));
    assert!(room_for(&reg, &block(), &by_issuer, &ExecuteMsg::Revoke { cert_id: "a".to_string(), reason: None }));
    // One below the largest count leaves room for one more, not two.
    let cfg = Config { owner: addr("owner"), total_issued: u64::MAX - 1 };
    let reg = Registry::from_parts(None, Some(cfg), vec![issuer.clone()], vec![]).unwrap();
    assert!(room_for(&reg, &block(), &by_issuer, &ExecuteMsg::Issue { cert: input("a", 1, 1) }));
    assert!(!room_for(&reg, &block(), &by_issuer, &batch));
    let fresh = Registry::new();
    assert!(room_for(&fresh, &block(), &by_issuer, &ExecuteMsg::Issue { cert: input("a", 1, 1) }));
}

#[test]
fn address_lists_follow_validation_order() {
    let msg = InstantiateMsg { owner: "o".to_string(), issuers: vec!["a".to_string(), "b".to_string()] };
    assert_eq!(instantiate_address_list(&msg), vec!["o".to_string(), "a".to_string(), "b".to_string()]);
    let msg = ExecuteMsg::UpdateIssuers { add: vec!["a".to_string()], remove: vec!["r".to_string()] };
    assert_eq!(execute_address_list(&msg), vec!["a".to_string(), "r".to_string()]);
    let msg = ExecuteMsg::UpdateOwner { new_owner: "n".to_string() };
    assert_eq!(execute_address_list(&msg), vec!["n".to_string()]);
    let msg = ExecuteMsg::Revoke { cert_id: "c".to_string(), reason: None };
    assert!(execute_address_list(&msg).is_empty());
}

#[test]
fn backfill_keeps_given_date() {
    let issuer = addr("issuer");
    let (mut reg, _) = setup_with(vec![issuer.clone()]);
    let mut c = input("old", 1, 1);
    c.issued_at = Some(Timestamp::from_seconds(1_000));
    c.metadata_uri = Some("ipfs://x".to_string());
    run(&mut reg, &issuer, ExecuteMsg::Issue { cert: c }).unwrap();
    let got = certificate(&reg, "old");
    assert_eq!(got.issued_at, Timestamp::from_seconds(1_000));
    assert_eq!(got.metadata_uri, Some("ipfs://x".to_string()));
}

#[test]
fn batch_matches_issuing_one_by_one() {
    let issuer = addr("issuer");
    let (mut batched, _) = setup_with(vec![issuer.clone()]);
    let (mut single, _) = setup_with(vec![issuer.clone()]);
    let ids_in = ["c", "a", "b"];
    let certs: Vec<CertificateInput> = ids_in.iter().map(|id| input(id, 1, 2)).collect();
    run(&mut batched, &issuer, ExecuteMsg::IssueBatch { certs }).unwrap();
    for id in ids_in {
        run(&mut single, &issuer, ExecuteMsg::Issue { cert: input(id, 1, 2) }).unwrap();
    }
    assert_eq!(batched.certificates(), single.certificates());
    assert_eq!(config(&batched), config(&single));

    // The first refusal of the sequence is the batch's answer, and the batch
    // stores nothing.
    let (mut batched, _) = setup_with(vec![issuer.clone()]);
    let (mut single, _) = setup_with(vec![issuer.clone()]);
    let certs = vec![input("a", 1, 2), input("b", 1, 2), input("a", 1, 2)];
    let err = run(&mut batched, &issuer, ExecuteMsg::IssueBatch { certs }).unwrap_err();
    run(&mut single, &issuer, ExecuteMsg::Issue { cert: input("a", 1, 2) }).unwrap();
    run(&mut single, &issuer, ExecuteMsg::Issue { cert: input("b", 1, 2) }).unwrap();
    let single_err = run(&mut single, &issuer, ExecuteMsg::Issue { cert: input("a", 1, 2) }).unwrap_err();
    assert_eq!(err, single_err);
    assert_eq!(err, ContractError::DuplicateCertificate { cert_id: "a".to_string() });
    assert!(batched.certificates().is_empty());
    assert_eq!(config(&batched).2, 0);
}

#[test]
fn repeated_allowlist_change_changes_nothing_more() {
    let issuer = addr("issuer");
    let x = addr("x");
    let y = addr("y");
    let (mut reg, owner) = setup_with(vec![issuer.clone(), y.clone()]);
    let change = || ExecuteMsg::UpdateIssuers { add: vec![x.clone(), y.clone()], remove: vec![y.clone(), issuer.clone()] };
    run(&mut reg, &owner, change()).unwrap();
    let once = config(&reg);
    assert_eq!(once.1, vec![x.clone()]);
    run(&mut reg, &owner, change()).unwrap();
    assert_eq!(config(&reg), once);
}

#[test]
fn issuer_cannot_take_over() {
    let issuer = addr("issuer");
    let (mut reg, owner) = setup_with(vec![issuer.clone()]);
    let before = config(&reg);
    let err = run(&mut reg, &issuer, ExecuteMsg::UpdateOwner { new_owner: issuer.clone() }).unwrap_err();
    assert_eq!(err, ContractError::Unauthorized {});
    let err = run(&mut reg, &issuer, ExecuteMsg::UpdateIssuers { add: vec![addr("mallory")], remove: vec![] }).unwrap_err();
    assert_eq!(err, ContractError::Unauthorized {});
    assert_eq!(config(&reg), before);
    run(&mut reg, &issuer, ExecuteMsg::Issue { cert: input("a", 1, 2) }).unwrap();
    run(&mut reg, &issuer, ExecuteMsg::Revoke { cert_id: "a".to_string(), reason: None }).unwrap();
    let after = config(&reg);
    assert_eq!((after.0, after.1), (owner, vec![issuer]));
}

#[test]
fn pages_concatenate_and_ascend() {
    let issuer = addr("issuer");
    let (mut reg, _) = setup_with(vec![issuer.clone()]);
    for id in ["e", "b", "g", "a", "d", "c", "f"] {
        run(&mut reg, &issuer, ExecuteMsg::Issue { cert: input(id, 1, 5) }).unwrap();
    }
    run(&mut reg, &issuer, ExecuteMsg::Issue { cert: input("bb", 1, 6) }).unwrap();
    let page_ids = |start: Option<String>, limit: u32| -> Vec<String> {
        query_by_index(&reg, IndexKind::Recipient(5), start, Some(limit))
            .certificates
            .into_iter()
            .map(|c| c.cert_id)
            .collect()
    };
    let first = page_ids(None, 2);
    assert_eq!(first, vec!["a".to_string(), "b".to_string()]);
    let second = page_ids(Some(first[1].clone()), 3);
    let mut both = first.clone();
    both.extend(second);
    assert_eq!(both, page_ids(None, 5));
    let all = page_ids(None, 100);
    assert_eq!(all, vec!["a", "b", "c", "d", "e", "f", "g"].into_iter().map(String::from).collect::<Vec<_>>());
    assert!(all.windows(2).all(|w| w[0].as_bytes() < w[1].as_bytes()));
}
