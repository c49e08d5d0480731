//! The messages the registry accepts and the answers it gives.
use vstd::prelude::*;
use cosmwasm_std::Timestamp;
use crate::state::Certificate;

verus! {

/// The block a request runs in: what the registry reads of it.
#[derive(Debug)]
pub struct Env {
    /// The block time, stamped on certificates issued without a date and on
    /// revocations.
    pub block_time: Timestamp,
}

/// Who sent a request.
#[derive(Debug)]
pub struct MessageInfo {
    /// The sender's address.
    pub sender: String,
}

/// One key/value pair of a response's event log.
#[derive(Debug)]
pub struct Attribute {
    pub key: String,
    pub value: String,
}

/// The answer to an executed request: its attributes, in order.
#[derive(Debug)]
pub struct Response {
    pub attributes: Vec<Attribute>,
}

impl View for Response {
    type V = Seq<(Seq<char>, Seq<char>)>;

    open spec fn view(&self) -> Seq<(Seq<char>, Seq<char>)> {
        self.attributes@.map_values(|a: Attribute| (a.key@, a.value@))
    }
}

impl Response {
    /// A response without attributes.
    pub fn new() -> (r: Response)
        ensures
            r@ == Seq::<(Seq<char>, Seq<char>)>::empty(),
    {
        let r = Response { attributes: Vec::new() };
        assert(r@ =~= Seq::<(Seq<char>, Seq<char>)>::empty());
        r
    }

    /// The response with one more attribute at the end.
    pub fn add_attribute(self, key: &str, value: String) -> (r: Response)
        ensures
            r@ == self@.push((key@, value@)),
    {
        let mut attributes = self.attributes;
        let ghost before = attributes@;
        attributes.push(Attribute { key: String::from_str(key), value });
        let r = Response { attributes };
        assert(r@ =~= before.map_values(|a: Attribute| (a.key@, a.value@)).push((key@, value@)));
        r
    }
}

/// Sets the registry up.
#[derive(Debug)]
pub struct InstantiateMsg {
    /// Governance address: controls the issuer allowlist and ownership
    /// transfer.
    pub owner: String,
    /// Addresses allowed to issue and revoke certificates.
    pub issuers: Vec<String>,
}

/// Payload of a migration; carries no fields.
#[derive(Debug)]
pub struct MigrateMsg {}

/// A certificate to anchor.
#[derive(Debug)]
pub struct CertificateInput {
    /// Globally unique id, chosen by the issuer.
    pub cert_id: String,
    /// Institution that issued the certificate.
    pub institution_id: u64,
    /// Recipient of the certificate (an opaque user id).
    pub recipient_id: u64,
    /// Certificate template.
    pub template_id: u64,
    /// sha256 hex of the canonical certificate metadata.
    pub content_hash: String,
    /// Optional pointer to the pinned metadata.
    pub metadata_uri: Option<String>,
    /// Original issuance time; the block time when omitted.
    pub issued_at: Option<Timestamp>,
}

/// The state-changing requests.
#[derive(Debug)]
pub enum ExecuteMsg {
    /// Anchor one certificate. Issuer-only. Fails on a duplicate id.
    Issue { cert: CertificateInput },
    /// Anchor up to `MAX_BATCH_SIZE` certificates at once. Issuer-only.
    /// All-or-nothing.
    IssueBatch { certs: Vec<CertificateInput> },
    /// Mark a certificate revoked; the record stays. Issuer-only.
    Revoke { cert_id: String, reason: Option<String> },
    /// Owner-only: change the issuer allowlist.
    UpdateIssuers { add: Vec<String>, remove: Vec<String> },
    /// Owner-only: hand governance to a new owner.
    UpdateOwner { new_owner: String },
}

/// The read-only requests.
#[derive(Debug)]
pub enum QueryMsg {
    /// The owner, the issuers (ascending) and the issuance count.
    Config {},
    /// One certificate by id.
    Certificate { cert_id: String },
    /// A recipient's certificates, ascending by id, paginated.
    CertificatesByRecipient { recipient_id: u64, start_after: Option<String>, limit: Option<u32> },
    /// An institution's certificates, ascending by id, paginated.
    CertificatesByInstitution { institution_id: u64, start_after: Option<String>, limit: Option<u32> },
}

/// Answer to `QueryMsg::Config`.
#[derive(Debug)]
pub struct ConfigResponse {
    pub owner: String,
    pub issuers: Vec<String>,
    pub total_issued: u64,
}

/// Answer to `QueryMsg::Certificate`.
#[derive(Debug)]
pub struct CertificateResponse {
    pub certificate: Certificate,
}

/// Answer to the two list queries.
#[derive(Debug)]
pub struct CertificatesResponse {
    pub certificates: Vec<Certificate>,
}

/// The answer to a query, by kind.
#[derive(Debug)]
pub enum QueryResponse {
    Config(ConfigResponse),
    Certificate(CertificateResponse),
    Certificates(CertificatesResponse),
}

} // verus!
