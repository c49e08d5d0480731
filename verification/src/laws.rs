//! Laws of the registry: what holds of every request, stated over the model of
//! the entry points in `spec`, and proved.
use vstd::prelude::*;
use crate::error::ContractError;
use crate::msg::{CertificateInput, Env, ExecuteMsg, InstantiateMsg, MessageInfo};
use crate::order::{
    count_below, lemma_count_below_split, lemma_insert_sorted, lemma_lex_asymmetric, lemma_lex_irreflexive,
    lemma_lex_transitive, lemma_remove_sorted, lemma_sorted_unique, lex_lt, strictly_sorted,
};
use crate::spec::{
    after_start, checked, execute_state, in_index, input_error, insert_all, instantiate_state,
    matching, new_certificate, overflow_at, overflows, page, remove_all, revoke_state,
    revoked_certificate, store_all, store_all_overflows, store_one, total_issued, AddrCheck,
    IndexKind, MAX_BATCH_SIZE, effective_limit, first_error,
};
use crate::text::{is_lower_hex_byte, valid_content_hash};
use vstd::utf8::{encode_utf8, is_ascii_chars, is_ascii_chars_encode_utf8};
use crate::state::{
    addr_keys, cert_index, cert_key, cert_keys, has_cert, insert_cert, lemma_str_key_injective,
    records_valid, set_insert, set_remove, str_key, valid_record, Certificate, RegistryView,
};

verus! {

/// Two records of the same issuance: equal in everything but revocation.
pub open spec fn same_issue(a: Certificate, b: Certificate) -> bool {
    &&& a.cert_id == b.cert_id
    &&& a.institution_id == b.institution_id
    &&& a.recipient_id == b.recipient_id
    &&& a.template_id == b.template_id
    &&& a.content_hash == b.content_hash
    &&& a.metadata_uri == b.metadata_uri
    &&& a.issued_at == b.issued_at
    &&& a.issued_by == b.issued_by
}

/// The owner (empty before set up).
pub open spec fn owner_of(s: RegistryView) -> Seq<char> {
    match s.config {
        Some((o, _)) => o,
        None => Seq::empty(),
    }
}

/// The record with `c`'s id in `t` (if any).
pub open spec fn record_of(t: Seq<Certificate>, c: Certificate) -> Certificate {
    t[cert_index(t, c.cert_id@)]
}

/// Every record of `s` is in `t`, unchanged.
pub open spec fn records_unchanged(s: Seq<Certificate>, t: Seq<Certificate>) -> bool {
    forall|i: int| 0 <= i < s.len() ==> has_cert(t, (#[trigger] s[i]).cert_id@) && record_of(t, s[i]) == s[i]
}

/// Every record of `s` is in `t` as the same issuance; a revoked one is
/// unchanged.
pub open spec fn records_kept(s: Seq<Certificate>, t: Seq<Certificate>) -> bool {
    forall|i: int| 0 <= i < s.len() ==> {
        &&& has_cert(t, (#[trigger] s[i]).cert_id@)
        &&& same_issue(s[i], record_of(t, s[i]))
        &&& s[i].revoked ==> record_of(t, s[i]) == s[i]
    }
}

proof fn lemma_cert_index(s: Seq<Certificate>, i: int)
    requires
        strictly_sorted(cert_keys(s)),
        0 <= i < s.len(),
    ensures
        has_cert(s, s[i].cert_id@),
        cert_index(s, s[i].cert_id@) == i,
{
    let id = s[i].cert_id@;
    assert(has_cert(s, id));
    let j = cert_index(s, id);
    assert(cert_keys(s)[i] == cert_keys(s)[j]);
    lemma_sorted_unique(cert_keys(s), i, j);
}

proof fn lemma_insert_cert(s: Seq<Certificate>, c: Certificate)
    requires
        strictly_sorted(cert_keys(s)),
        !has_cert(s, c.cert_id@),
    ensures
        0 <= count_below(cert_keys(s), cert_key(c)) <= s.len(),
        insert_cert(s, c) == s.insert(count_below(cert_keys(s), cert_key(c)) as int, c),
        strictly_sorted(cert_keys(insert_cert(s, c))),
        insert_cert(s, c).len() == s.len() + 1,
        has_cert(insert_cert(s, c), c.cert_id@),
        record_of(insert_cert(s, c), c) == c,
        records_unchanged(s, insert_cert(s, c)),
{
    let keys = cert_keys(s);
    let k = cert_key(c);
    if keys.contains(k) {
        let j = choose|j: int| 0 <= j < keys.len() && keys[j] == k;
        lemma_str_key_injective(s[j].cert_id@, c.cert_id@);
        assert(has_cert(s, c.cert_id@));
    }
    lemma_insert_sorted(keys, k);
    let p = count_below(keys, k) as int;
    let t = s.insert(p, c);
    assert(cert_keys(t) =~= keys.insert(p, k));
    lemma_cert_index(t, p);
    assert forall|i: int| 0 <= i < s.len() implies has_cert(t, (#[trigger] s[i]).cert_id@) && record_of(t, s[i]) == s[i] by {
        let q = if i < p { i } else { i + 1 };
        assert(t[q] == s[i]);
        lemma_cert_index(t, q);
    }
}

proof fn lemma_unchanged_refl(s: Seq<Certificate>)
    requires
        strictly_sorted(cert_keys(s)),
    ensures
        records_unchanged(s, s),
{
    assert forall|i: int| 0 <= i < s.len() implies has_cert(s, (#[trigger] s[i]).cert_id@) && record_of(s, s[i]) == s[i] by {
        lemma_cert_index(s, i);
    }
}

proof fn lemma_unchanged_trans(s: Seq<Certificate>, t: Seq<Certificate>, u: Seq<Certificate>)
    requires
        records_unchanged(s, t),
        records_unchanged(t, u),
        strictly_sorted(cert_keys(t)),
    ensures
        records_unchanged(s, u),
{
    assert forall|i: int| 0 <= i < s.len() implies has_cert(u, (#[trigger] s[i]).cert_id@) && record_of(u, s[i]) == s[i] by {
        assert(has_cert(t, s[i].cert_id@) && record_of(t, s[i]) == s[i]);
        let j = cert_index(t, s[i].cert_id@);
        assert(t[j] == s[i]);
        assert(has_cert(u, t[j].cert_id@) && record_of(u, t[j]) == t[j]);
    }
}

/// The allowlist with `a` added stays sorted and holds `a`.
proof fn lemma_set_insert(s: Seq<Seq<char>>, a: Seq<char>)
    requires
        strictly_sorted(addr_keys(s)),
    ensures
        strictly_sorted(addr_keys(set_insert(s, a))),
        set_insert(s, a).contains(a),
{
    if s.contains(a) {
    } else {
        let keys = addr_keys(s);
        let k = str_key(a);
        if keys.contains(k) {
            let j = choose|j: int| 0 <= j < keys.len() && keys[j] == k;
            lemma_str_key_injective(s[j], a);
            assert(s.contains(a));
        }
        lemma_insert_sorted(keys, k);
        let p = count_below(keys, k) as int;
        assert(addr_keys(s.insert(p, a)) =~= keys.insert(p, k));
        assert(s.insert(p, a)[p] == a);
    }
}

/// The allowlist with `a` removed stays sorted.
proof fn lemma_set_remove(s: Seq<Seq<char>>, a: Seq<char>)
    requires
        strictly_sorted(addr_keys(s)),
    ensures
        strictly_sorted(addr_keys(set_remove(s, a))),
{
    if s.contains(a) {
        let i = s.index_of(a);
        lemma_remove_sorted(addr_keys(s), i);
        assert(addr_keys(s.remove(i)) =~= addr_keys(s).remove(i));
        assert(set_remove(s, a) == s.remove(i));
    }
}

proof fn lemma_insert_all(s: Seq<Seq<char>>, adds: Seq<AddrCheck>)
    requires
        strictly_sorted(addr_keys(s)),
    ensures
        strictly_sorted(addr_keys(insert_all(s, adds))),
        adds.len() > 0 ==> insert_all(s, adds).len() > 0,
    decreases adds.len(),
{
    if adds.len() > 0 {
        lemma_insert_all(s, adds.drop_last());
        lemma_set_insert(insert_all(s, adds.drop_last()), checked(adds.last()));
    }
}

proof fn lemma_remove_all(s: Seq<Seq<char>>, rems: Seq<AddrCheck>)
    requires
        strictly_sorted(addr_keys(s)),
    ensures
        strictly_sorted(addr_keys(remove_all(s, rems))),
    decreases rems.len(),
{
    if rems.len() > 0 {
        lemma_remove_all(s, rems.drop_last());
        lemma_set_remove(remove_all(s, rems.drop_last()), checked(rems.last()));
    }
}

/// Adding a valid record keeps every record valid.
proof fn lemma_valid_insert(s: Seq<Certificate>, p: int, c: Certificate)
    requires
        records_valid(s),
        valid_record(c),
        0 <= p <= s.len(),
    ensures
        records_valid(s.insert(p, c)),
{
    assert forall|i: int| 0 <= i < s.insert(p, c).len() implies valid_record(#[trigger] s.insert(p, c)[i]) by {
        if i < p {
            assert(s.insert(p, c)[i] == s[i]);
        } else if i > p {
            assert(s.insert(p, c)[i] == s[i - 1]);
        }
    }
}

/// Replacing a record by a valid one keeps every record valid.
proof fn lemma_valid_update(s: Seq<Certificate>, p: int, c: Certificate)
    requires
        records_valid(s),
        valid_record(c),
        0 <= p < s.len(),
    ensures
        records_valid(s.update(p, c)),
{
    assert forall|i: int| 0 <= i < s.update(p, c).len() implies valid_record(#[trigger] s.update(p, c)[i]) by {
        if i != p {
            assert(s.update(p, c)[i] == s[i]);
        }
    }
}

/// What storing one certificate does.
proof fn lemma_store_one(s: RegistryView, input: CertificateInput, info: MessageInfo, env: Env)
    requires
        s.wf(),
    ensures
        store_one(s, input, info, env) matches Ok(t) ==> {
            &&& t.wf()
            &&& t.version == s.version
            &&& t.issuers == s.issuers
            &&& input_error(input) is None
            &&& !has_cert(s.certificates, input.cert_id@)
            &&& s.config is Some
            &&& t.config == Some((owner_of(s), (total_issued(s) + 1) as u64))
            &&& t.certificates.len() == s.certificates.len() + 1
            &&& records_unchanged(s.certificates, t.certificates)
            &&& has_cert(t.certificates, input.cert_id@)
            &&& record_of(t.certificates, new_certificate(input, info, env)) == new_certificate(input, info, env)
            &&& records_valid(s.certificates) ==> records_valid(t.certificates)
        },
{
    reveal(store_one);
    if store_one(s, input, info, env) is Ok {
        let c = new_certificate(input, info, env);
        lemma_insert_cert(s.certificates, c);
        if records_valid(s.certificates) {
            lemma_valid_insert(s.certificates, count_below(cert_keys(s.certificates), cert_key(c)) as int, c);
        }
    }
}

/// What storing a batch does.
proof fn lemma_store_all(s: RegistryView, inputs: Seq<CertificateInput>, info: MessageInfo, env: Env)
    requires
        s.wf(),
    ensures
        store_all(s, inputs, info, env) matches Ok(t) ==> {
            &&& t.wf()
            &&& t.version == s.version
            &&& t.issuers == s.issuers
            &&& inputs.len() > 0 ==> s.config is Some && t.config is Some && owner_of(t) == owner_of(s)
            &&& inputs.len() == 0 ==> t == s
            &&& !store_all_overflows(s, inputs, info, env) ==> total_issued(t) == total_issued(s) + inputs.len()
            &&& t.certificates.len() == s.certificates.len() + inputs.len()
            &&& records_unchanged(s.certificates, t.certificates)
            &&& records_valid(s.certificates) ==> records_valid(t.certificates)
            &&& forall|k: int| 0 <= k < inputs.len() ==> {
                &&& has_cert(t.certificates, (#[trigger] inputs[k]).cert_id@)
                &&& record_of(t.certificates, new_certificate(inputs[k], info, env)) == new_certificate(inputs[k], info, env)
            }
        },
    decreases inputs.len(),
{
    if inputs.len() == 0 {
        lemma_unchanged_refl(s.certificates);
    } else {
        let init = inputs.drop_last();
        lemma_store_all(s, init, info, env);
        if let Ok(t) = store_all(s, init, info, env) {
            lemma_store_one(t, inputs.last(), info, env);
            if let Ok(u) = store_one(t, inputs.last(), info, env) {
                lemma_unchanged_trans(s.certificates, t.certificates, u.certificates);
                assert forall|k: int| 0 <= k < inputs.len() implies {
                    &&& has_cert(u.certificates, (#[trigger] inputs[k]).cert_id@)
                    &&& record_of(u.certificates, new_certificate(inputs[k], info, env)) == new_certificate(inputs[k], info, env)
                } by {
                    if k < init.len() {
                        assert(init[k] == inputs[k]);
                        let c = new_certificate(inputs[k], info, env);
                        let j = cert_index(t.certificates, c.cert_id@);
                        assert(t.certificates[j] == c);
                        assert(has_cert(u.certificates, t.certificates[j].cert_id@));
                    }
                }
            }
        }
    }
}

/// What a revocation does.
proof fn lemma_revoke(s: RegistryView, cert_id: String, reason: Option<String>, env: Env)
    requires
        s.wf(),
    ensures
        revoke_state(s, cert_id, reason, env) matches Ok(t) ==> {
            &&& t.wf()
            &&& t.version == s.version
            &&& t.config == s.config
            &&& t.issuers == s.issuers
            &&& t.certificates.len() == s.certificates.len()
            &&& records_kept(s.certificates, t.certificates)
            &&& records_valid(s.certificates) ==> records_valid(t.certificates)
            &&& has_cert(t.certificates, cert_id@)
            &&& t.certificates[cert_index(t.certificates, cert_id@)] == revoked_certificate(
                s.certificates[cert_index(s.certificates, cert_id@)],
                env,
                reason,
            )
        },
{
    if let Ok(t) = revoke_state(s, cert_id, reason, env) {
        let c = s.certificates;
        let i = cert_index(c, cert_id@);
        let d = t.certificates;
        if records_valid(c) {
            assert(valid_record(c[i]));
            lemma_valid_update(c, i, revoked_certificate(c[i], env, reason));
        }
        assert(cert_keys(d) =~= cert_keys(c));
        lemma_cert_index(d, i);
        assert forall|j: int| 0 <= j < c.len() implies {
            &&& has_cert(d, (#[trigger] c[j]).cert_id@)
            &&& same_issue(c[j], record_of(d, c[j]))
            &&& c[j].revoked ==> record_of(d, c[j]) == c[j]
        } by {
            lemma_cert_index(d, j);
            lemma_cert_index(c, j);
        }
    }
}

/// Storing certificates keeps the allowlist, the owner, and whether the
/// registry is set up.
proof fn lemma_store_all_keeps(s: RegistryView, inputs: Seq<CertificateInput>, info: MessageInfo, env: Env)
    ensures
        store_all(s, inputs, info, env) matches Ok(t) ==> {
            &&& t.issuers == s.issuers
            &&& (t.config is Some <==> s.config is Some)
            &&& owner_of(t) == owner_of(s)
        },
    decreases inputs.len(),
{
    reveal(store_one);
    if inputs.len() > 0 {
        lemma_store_all_keeps(s, inputs.drop_last(), info, env);
    }
}

/// Issuing the certificates one request after another, stopping at the first
/// refusal.
pub open spec fn issue_each(s: RegistryView, info: MessageInfo, env: Env, inputs: Seq<CertificateInput>) -> Result<RegistryView, ContractError>
    decreases inputs.len(),
{
    if inputs.len() == 0 {
        Ok(s)
    } else {
        match issue_each(s, info, env, inputs.drop_last()) {
            Ok(t) => execute_state(t, info, env, ExecuteMsg::Issue { cert: inputs.last() }, Seq::empty()),
            Err(e) => Err(e),
        }
    }
}

proof fn lemma_issue_each(s: RegistryView, info: MessageInfo, env: Env, inputs: Seq<CertificateInput>)
    requires
        s.issuers.contains(info.sender@),
    ensures
        issue_each(s, info, env, inputs) == store_all(s, inputs, info, env),
    decreases inputs.len(),
{
    if inputs.len() > 0 {
        lemma_issue_each(s, info, env, inputs.drop_last());
        lemma_store_all_keeps(s, inputs.drop_last(), info, env);
    }
}

/// A batch is the same as issuing its certificates one request after another:
/// it succeeds exactly when each single issuance in turn would, reaching the
/// same state, and otherwise answers the first refusal.
pub proof fn law_batch_is_issue_each(s: RegistryView, info: MessageInfo, env: Env, certs: Vec<CertificateInput>, checks: Seq<AddrCheck>)
    requires
        s.issuers.contains(info.sender@),
        0 < certs@.len() <= MAX_BATCH_SIZE,
    ensures
        execute_state(s, info, env, ExecuteMsg::IssueBatch { certs }, checks) == issue_each(s, info, env, certs@),
{
    lemma_issue_each(s, info, env, certs@);
}

/// Only the owner changes the owner or the allowlist: whatever anyone else
/// asks (an issuer among them), the owner, the allowlist and whether the
/// registry is set up stay as they were.
pub proof fn law_non_owner_cannot_take_over(s: RegistryView, info: MessageInfo, env: Env, msg: ExecuteMsg, checks: Seq<AddrCheck>)
    requires
        !(s.config matches Some((o, _)) && o == info.sender@),
    ensures
        execute_state(s, info, env, msg, checks) matches Ok(t) ==> {
            &&& (t.config is Some <==> s.config is Some)
            &&& owner_of(t) == owner_of(s)
            &&& t.issuers == s.issuers
        },
{
    reveal(store_one);
    if let ExecuteMsg::IssueBatch { certs } = msg {
        lemma_store_all_keeps(s, certs@, info, env);
    }
}

/// Some check validated the address `a`.
spec fn validated(checks: Seq<AddrCheck>, a: Seq<char>) -> bool {
    exists|k: int| 0 <= k < checks.len() && checked(#[trigger] checks[k]) == a
}

proof fn lemma_set_insert_contains(s: Seq<Seq<char>>, a: Seq<char>, x: Seq<char>)
    requires
        strictly_sorted(addr_keys(s)),
    ensures
        set_insert(s, a).contains(x) <==> (s.contains(x) || x == a),
{
    if !s.contains(a) {
        let keys = addr_keys(s);
        lemma_count_below_split(keys, str_key(a));
        let p = count_below(keys, str_key(a)) as int;
        let t = s.insert(p, a);
        assert(t[p] == a);
        if s.contains(x) {
            let j = choose|j: int| 0 <= j < s.len() && s[j] == x;
            if j < p {
                assert(t[j] == x);
            } else {
                assert(t[j + 1] == x);
            }
        }
        if t.contains(x) && x != a {
            let j = choose|j: int| 0 <= j < t.len() && t[j] == x;
            if j < p {
                assert(s[j] == x);
            } else {
                assert(s[j - 1] == x);
            }
        }
    }
}

proof fn lemma_set_remove_contains(s: Seq<Seq<char>>, a: Seq<char>, x: Seq<char>)
    requires
        strictly_sorted(addr_keys(s)),
    ensures
        set_remove(s, a).contains(x) <==> (s.contains(x) && x != a),
{
    if s.contains(a) {
        let i = s.index_of(a);
        let t = s.remove(i);
        if s.contains(x) && x != a {
            let j = choose|j: int| 0 <= j < s.len() && s[j] == x;
            if j < i {
                assert(t[j] == x);
            } else {
                assert(t[j - 1] == x);
            }
        }
        if t.contains(x) {
            let j = choose|j: int| 0 <= j < t.len() && t[j] == x;
            let q = if j < i { j } else { j + 1 };
            assert(s[q] == x);
            if x == a {
                assert(addr_keys(s)[q] == addr_keys(s)[i]);
                lemma_sorted_unique(addr_keys(s), q, i);
            }
        }
    }
}

proof fn lemma_insert_all_contains(s: Seq<Seq<char>>, adds: Seq<AddrCheck>, x: Seq<char>)
    requires
        strictly_sorted(addr_keys(s)),
    ensures
        insert_all(s, adds).contains(x) <==> (s.contains(x) || validated(adds, x)),
    decreases adds.len(),
{
    if adds.len() > 0 {
        let init = adds.drop_last();
        lemma_insert_all_contains(s, init, x);
        lemma_insert_all(s, init);
        lemma_set_insert_contains(insert_all(s, init), checked(adds.last()), x);
        if validated(init, x) {
            let k = choose|k: int| 0 <= k < init.len() && checked(#[trigger] init[k]) == x;
            assert(adds[k] == init[k]);
        }
        if x == checked(adds.last()) {
            assert(checked(adds[adds.len() - 1]) == x);
        }
        if validated(adds, x) && x != checked(adds.last()) {
            let k = choose|k: int| 0 <= k < adds.len() && checked(#[trigger] adds[k]) == x;
            assert(init[k] == adds[k]);
        }
    }
}

proof fn lemma_remove_all_contains(s: Seq<Seq<char>>, rems: Seq<AddrCheck>, x: Seq<char>)
    requires
        strictly_sorted(addr_keys(s)),
    ensures
        remove_all(s, rems).contains(x) <==> (s.contains(x) && !validated(rems, x)),
    decreases rems.len(),
{
    if rems.len() > 0 {
        let init = rems.drop_last();
        lemma_remove_all_contains(s, init, x);
        lemma_remove_all(s, init);
        lemma_set_remove_contains(remove_all(s, init), checked(rems.last()), x);
        if validated(init, x) {
            let k = choose|k: int| 0 <= k < init.len() && checked(#[trigger] init[k]) == x;
            assert(rems[k] == init[k]);
        }
        if x == checked(rems.last()) {
            assert(checked(rems[rems.len() - 1]) == x);
        }
        if validated(rems, x) && x != checked(rems.last()) {
            let k = choose|k: int| 0 <= k < rems.len() && checked(#[trigger] rems[k]) == x;
            assert(init[k] == rems[k]);
        }
    }
}

/// The allowlist without its first address stays sorted and holds the rest.
proof fn lemma_drop_first_sorted(a: Seq<Seq<char>>)
    requires
        strictly_sorted(addr_keys(a)),
        a.len() > 0,
    ensures
        strictly_sorted(addr_keys(a.drop_first())),
        forall|x: Seq<char>| a.drop_first().contains(x) <==> (a.contains(x) && x != a[0]),
{
    let keys = addr_keys(a);
    assert(addr_keys(a.drop_first()) =~= keys.drop_first());
    assert forall|i: int, j: int| 0 <= i < j < keys.drop_first().len() implies lex_lt(#[trigger] keys.drop_first()[i], #[trigger] keys.drop_first()[j]) by {
        assert(keys.drop_first()[i] == keys[i + 1] && keys.drop_first()[j] == keys[j + 1]);
    }
    assert forall|x: Seq<char>| a.drop_first().contains(x) <==> (a.contains(x) && x != a[0]) by {
        if a.drop_first().contains(x) {
            let j = choose|j: int| 0 <= j < a.drop_first().len() && a.drop_first()[j] == x;
            assert(a[j + 1] == x);
            if x == a[0] {
                assert(keys[j + 1] == keys[0]);
                lemma_sorted_unique(keys, j + 1, 0);
            }
        }
        if a.contains(x) && x != a[0] {
            let j = choose|j: int| 0 <= j < a.len() && a[j] == x;
            assert(a.drop_first()[j - 1] == x);
        }
    }
}

/// Two sorted allowlists that hold the same addresses are equal.
proof fn lemma_same_members(a: Seq<Seq<char>>, b: Seq<Seq<char>>)
    requires
        strictly_sorted(addr_keys(a)),
        strictly_sorted(addr_keys(b)),
        forall|x: Seq<char>| a.contains(x) <==> b.contains(x),
    ensures
        a == b,
    decreases a.len(),
{
    if a.len() == 0 {
        if b.len() > 0 {
            assert(b.contains(b[0]));
        }
        assert(a =~= b);
    } else {
        assert(a.contains(a[0]));
        assert(b.contains(a[0]));
        assert(b.len() > 0);
        assert(b.contains(b[0]));
        if a[0] != b[0] {
            let i = choose|i: int| 0 <= i < a.len() && a[i] == b[0];
            let j = choose|j: int| 0 <= j < b.len() && b[j] == a[0];
            assert(addr_keys(a)[0] == str_key(a[0]) && addr_keys(a)[i] == str_key(b[0]));
            assert(addr_keys(b)[0] == str_key(b[0]) && addr_keys(b)[j] == str_key(a[0]));
            lemma_lex_asymmetric(str_key(a[0]), str_key(b[0]));
        }
        assert(a[0] == b[0]);
        lemma_drop_first_sorted(a);
        lemma_drop_first_sorted(b);
        assert forall|x: Seq<char>| a.drop_first().contains(x) <==> b.drop_first().contains(x) by {
            assert(a.contains(x) <==> b.contains(x));
        }
        lemma_same_members(a.drop_first(), b.drop_first());
        assert(a =~= b) by {
            assert forall|i: int| 0 <= i < a.len() implies a[i] == b[i] by {
                if i > 0 {
                    assert(a[i] == a.drop_first()[i - 1] && b[i] == b.drop_first()[i - 1]);
                }
            }
        }
    }
}

/// Repeating an allowlist change that succeeded succeeds again and changes
/// nothing more.
pub proof fn law_update_issuers_idempotent(s: RegistryView, info: MessageInfo, env: Env, add: Vec<String>, remove: Vec<String>, checks: Seq<AddrCheck>)
    requires
        s.wf(),
    ensures
        execute_state(s, info, env, ExecuteMsg::UpdateIssuers { add, remove }, checks) matches Ok(t) ==>
            execute_state(t, info, env, ExecuteMsg::UpdateIssuers { add, remove }, checks) == Ok::<RegistryView, ContractError>(t),
{
    if let Ok(t) = execute_state(s, info, env, ExecuteMsg::UpdateIssuers { add, remove }, checks) {
        let n = add@.len() as int;
        let adds = checks.take(n);
        let rems = checks.skip(n);
        let x = s.issuers;
        lemma_insert_all(x, adds);
        lemma_remove_all(insert_all(x, adds), rems);
        let y = t.issuers;
        assert(y == remove_all(insert_all(x, adds), rems));
        lemma_insert_all(y, adds);
        lemma_remove_all(insert_all(y, adds), rems);
        let z = remove_all(insert_all(y, adds), rems);
        assert forall|a: Seq<char>| z.contains(a) <==> y.contains(a) by {
            lemma_remove_all_contains(insert_all(y, adds), rems, a);
            lemma_insert_all_contains(y, adds, a);
            lemma_remove_all_contains(insert_all(x, adds), rems, a);
            lemma_insert_all_contains(x, adds, a);
        }
        lemma_same_members(z, y);
    }
}

/// Set up yields a well-formed, consistent state.
pub proof fn law_instantiate_consistent(msg: InstantiateMsg, checks: Seq<AddrCheck>)
    requires
        checks.len() == 1 + msg.issuers@.len(),
    ensures
        instantiate_state(msg, checks) matches Ok(t) ==> t.wf() && t.consistent(),
{
    if let Ok(t) = instantiate_state(msg, checks) {
        assert(addr_keys(Seq::<Seq<char>>::empty()) =~= Seq::<Seq<u8>>::empty());
        lemma_insert_all(Seq::empty(), checks.drop_first());
        assert(cert_keys(Seq::<Certificate>::empty()) =~= Seq::<Seq<u8>>::empty());
    }
}

/// Every request keeps the state well formed and consistent: before set up
/// nothing is stored; after it the issuer allowlist is never empty and the
/// issuance count equals the number of certificate records.
pub proof fn law_execute_consistent(s: RegistryView, info: MessageInfo, env: Env, msg: ExecuteMsg, checks: Seq<AddrCheck>)
    requires
        s.wf(),
        s.consistent(),
        !overflows(s, info, env, msg),
    ensures
        execute_state(s, info, env, msg, checks) matches Ok(t) ==> t.wf() && t.consistent(),
{
    match msg {
        ExecuteMsg::Issue { cert } => {
            lemma_store_one(s, cert, info, env);
        },
        ExecuteMsg::IssueBatch { certs } => {
            lemma_store_all(s, certs@, info, env);
        },
        ExecuteMsg::Revoke { cert_id, reason } => {
            lemma_revoke(s, cert_id, reason, env);
        },
        ExecuteMsg::UpdateIssuers { add, remove } => {
            let n = add@.len() as int;
            lemma_insert_all(s.issuers, checks.take(n));
            lemma_remove_all(insert_all(s.issuers, checks.take(n)), checks.skip(n));
        },
        ExecuteMsg::UpdateOwner { new_owner } => {},
    }
}

/// Certificates are never deleted nor reissued: every record a request finds
/// is still there afterwards as the same issuance, and a revoked record is
/// never touched again.
pub proof fn law_records_are_kept(s: RegistryView, info: MessageInfo, env: Env, msg: ExecuteMsg, checks: Seq<AddrCheck>)
    requires
        s.wf(),
    ensures
        execute_state(s, info, env, msg, checks) matches Ok(t) ==> records_kept(s.certificates, t.certificates),
{
    match msg {
        ExecuteMsg::Issue { cert } => {
            lemma_store_one(s, cert, info, env);
        },
        ExecuteMsg::IssueBatch { certs } => {
            lemma_store_all(s, certs@, info, env);
        },
        ExecuteMsg::Revoke { cert_id, reason } => {
            lemma_revoke(s, cert_id, reason, env);
        },
        _ => {
            lemma_unchanged_refl(s.certificates);
        },
    }
}

/// After a successful issuance the certificate reads back as issued: its
/// fields from the input, issued by the sender, dated by the input or else by
/// the block, not revoked.
pub proof fn law_issue_then_read(s: RegistryView, info: MessageInfo, env: Env, cert: CertificateInput, checks: Seq<AddrCheck>)
    requires
        s.wf(),
    ensures
        execute_state(s, info, env, ExecuteMsg::Issue { cert }, checks) matches Ok(t) ==> {
            &&& has_cert(t.certificates, cert.cert_id@)
            &&& t.certificates[cert_index(t.certificates, cert.cert_id@)] == new_certificate(cert, info, env)
        },
{
    lemma_store_one(s, cert, info, env);
}

/// After a successful batch every certificate of it reads back as issued.
pub proof fn law_batch_then_read(s: RegistryView, info: MessageInfo, env: Env, certs: Vec<CertificateInput>, checks: Seq<AddrCheck>, k: int)
    requires
        s.wf(),
        0 <= k < certs@.len(),
    ensures
        execute_state(s, info, env, ExecuteMsg::IssueBatch { certs }, checks) matches Ok(t) ==> {
            &&& has_cert(t.certificates, certs@[k].cert_id@)
            &&& t.certificates[cert_index(t.certificates, certs@[k].cert_id@)] == new_certificate(certs@[k], info, env)
        },
{
    lemma_store_all(s, certs@, info, env);
}

/// After a successful revocation the record is still there, marked revoked at
/// the block time with the reason, its issuance unchanged.
pub proof fn law_revoke_then_read(s: RegistryView, info: MessageInfo, env: Env, cert_id: String, reason: Option<String>, checks: Seq<AddrCheck>)
    requires
        s.wf(),
    ensures
        execute_state(s, info, env, ExecuteMsg::Revoke { cert_id, reason }, checks) matches Ok(t) ==> {
            let before = s.certificates[cert_index(s.certificates, cert_id@)];
            let after = t.certificates[cert_index(t.certificates, cert_id@)];
            &&& has_cert(t.certificates, cert_id@)
            &&& same_issue(before, after)
            &&& after.revoked
            &&& after.revoked_at == Some(env.block_time)
            &&& after.revoke_reason == reason
        },
{
    lemma_revoke(s, cert_id, reason, env);
}

/// Only an allowlisted issuer can issue or revoke; anyone else, the owner
/// included, is refused with `NotIssuer`.
pub proof fn law_issuance_is_issuer_only(s: RegistryView, info: MessageInfo, env: Env, msg: ExecuteMsg, checks: Seq<AddrCheck>)
    requires
        !s.issuers.contains(info.sender@),
        msg is Issue || msg is IssueBatch || msg is Revoke,
    ensures
        execute_state(s, info, env, msg, checks) == Err::<RegistryView, ContractError>(ContractError::NotIssuer {}),
{
}

/// Only the owner can change the allowlist or hand over ownership; anyone
/// else is refused with `Unauthorized`.
pub proof fn law_governance_is_owner_only(s: RegistryView, info: MessageInfo, env: Env, msg: ExecuteMsg, checks: Seq<AddrCheck>)
    requires
        s.config matches Some((owner, _)) && owner != info.sender@,
        msg is UpdateIssuers || msg is UpdateOwner,
    ensures
        execute_state(s, info, env, msg, checks) == Err::<RegistryView, ContractError>(ContractError::Unauthorized {}),
{
}

/// An id that is taken cannot be issued again; the request is refused with
/// `DuplicateCertificate`.
pub proof fn law_duplicate_is_refused(s: RegistryView, info: MessageInfo, env: Env, cert: CertificateInput, checks: Seq<AddrCheck>)
    requires
        s.issuers.contains(info.sender@),
        has_cert(s.certificates, cert.cert_id@),
    ensures
        execute_state(s, info, env, ExecuteMsg::Issue { cert }, checks) is Err,
        execute_state(s, info, env, ExecuteMsg::Issue { cert }, checks) matches Err(e) ==> (
            e == ContractError::DuplicateCertificate { cert_id: cert.cert_id }
            || e == ContractError::InvalidCertId {}
            || e == ContractError::InvalidContentHash {}
        ),
{
    reveal(store_one);
}

/// The allowlist can never be emptied by a change: a change that would leave
/// it empty is refused with `NoIssuersLeft`.
pub proof fn law_allowlist_never_emptied(s: RegistryView, info: MessageInfo, env: Env, add: Vec<String>, remove: Vec<String>, checks: Seq<AddrCheck>)
    ensures
        execute_state(s, info, env, ExecuteMsg::UpdateIssuers { add, remove }, checks) matches Ok(t) ==> t.issuers.len() > 0,
{
}

/// A listing holds exactly the records under the index after the start.
pub proof fn law_listing_is_exact(s: Seq<Certificate>, kind: IndexKind, start: Option<Seq<char>>, c: Certificate)
    ensures
        matching(s, kind, start).contains(c) <==> (s.contains(c) && in_index(c, kind) && after_start(c, start)),
    decreases s.len(),
{
    if s.len() > 0 {
        let init = s.drop_last();
        law_listing_is_exact(init, kind, start, c);
        let m = matching(init, kind, start);
        if init.contains(c) {
            let j = choose|j: int| 0 <= j < init.len() && init[j] == c;
            assert(s[j] == c);
        }
        if s.contains(c) && c != s.last() {
            let j = choose|j: int| 0 <= j < s.len() && s[j] == c;
            assert(j < s.len() - 1);
            assert(init[j] == c);
        }
        if in_index(s.last(), kind) && after_start(s.last(), start) {
            let n = m.push(s.last());
            if m.contains(c) {
                let j = choose|j: int| 0 <= j < m.len() && m[j] == c;
                assert(n[j] == c);
            }
            if n.contains(c) && c != s.last() {
                let j = choose|j: int| 0 <= j < n.len() && n[j] == c;
                assert(m[j] == c);
            }
            assert(n[m.len() as int] == s.last());
        }
    }
}

/// Every listed record is a record of `s`, under the index, after the start.
proof fn lemma_matching_members(s: Seq<Certificate>, kind: IndexKind, start: Option<Seq<char>>)
    ensures
        forall|j: int| 0 <= j < matching(s, kind, start).len() ==> {
            &&& s.contains(#[trigger] matching(s, kind, start)[j])
            &&& in_index(matching(s, kind, start)[j], kind)
            &&& after_start(matching(s, kind, start)[j], start)
        },
{
    assert forall|j: int| 0 <= j < matching(s, kind, start).len() implies {
        &&& s.contains(#[trigger] matching(s, kind, start)[j])
        &&& in_index(matching(s, kind, start)[j], kind)
        &&& after_start(matching(s, kind, start)[j], start)
    } by {
        let c = matching(s, kind, start)[j];
        assert(matching(s, kind, start).contains(c));
        law_listing_is_exact(s, kind, start, c);
    }
}

/// In a sorted sequence every record but the last has a smaller key than the last.
proof fn lemma_before_last(s: Seq<Certificate>, c: Certificate)
    requires
        strictly_sorted(cert_keys(s)),
        s.len() > 0,
        s.drop_last().contains(c),
    ensures
        lex_lt(cert_key(c), cert_key(s.last())),
{
    let j = choose|j: int| 0 <= j < s.drop_last().len() && s.drop_last()[j] == c;
    assert(s[j] == c);
    assert(cert_keys(s)[j] == cert_key(c));
    assert(cert_keys(s)[s.len() - 1] == cert_key(s.last()));
}

/// Listing after the key of the `a`-th listed record gives the records listed
/// after it.
proof fn lemma_listing_continues(s: Seq<Certificate>, kind: IndexKind, start: Option<Seq<char>>, a: int)
    requires
        strictly_sorted(cert_keys(s)),
        0 < a <= matching(s, kind, start).len(),
    ensures
        matching(s, kind, Some(matching(s, kind, start)[a - 1].cert_id@)) == matching(s, kind, start).skip(a),
    decreases s.len(),
{
    let m = matching(s, kind, start);
    let x = m[a - 1];
    let nx = Some(x.cert_id@);
    let init = s.drop_last();
    let l = s.last();
    let mi = matching(init, kind, start);
    assert(strictly_sorted(cert_keys(init))) by {
        assert forall|i: int, j: int| 0 <= i < j < cert_keys(init).len() implies lex_lt(#[trigger] cert_keys(init)[i], #[trigger] cert_keys(init)[j]) by {
            assert(cert_keys(init)[i] == cert_keys(s)[i] && cert_keys(init)[j] == cert_keys(s)[j]);
        }
    }
    lemma_matching_members(init, kind, start);
    if in_index(l, kind) && after_start(l, start) && a == m.len() {
        // `x` is the last record: nothing comes after it.
        assert(x == l);
        assert(m.skip(a) =~= Seq::<Certificate>::empty());
        let r = matching(s, kind, nx);
        if r.len() > 0 {
            let c = r[0];
            assert(r.contains(c));
            law_listing_is_exact(s, kind, nx, c);
            if c == l {
                lemma_lex_irreflexive(cert_key(l));
            } else {
                let j = choose|j: int| 0 <= j < s.len() && s[j] == c;
                assert(init[j] == c);
                assert(init.contains(c));
                lemma_before_last(s, c);
                lemma_lex_asymmetric(cert_key(c), cert_key(l));
            }
        }
        assert(r =~= m.skip(a));
    } else {
        // `x` is listed from the records before the last one.
        assert(a <= mi.len());
        assert(mi[a - 1] == x);
        lemma_listing_continues(init, kind, start, a);
        assert(mi.contains(x));
        assert(init.contains(x));
        lemma_before_last(s, x);
        if in_index(l, kind) && after_start(l, start) {
            assert(m == mi.push(l));
            assert(m.skip(a) =~= mi.skip(a).push(l));
        } else {
            if in_index(l, kind) {
                // `l` comes after `x`, which comes after the start.
                match start {
                    Some(st) => {
                        lemma_lex_transitive(str_key(st), cert_key(x), cert_key(l));
                    },
                    None => {},
                }
            }
        }
    }
}

/// Pagination walks the listing without gaps or repeats: a full first page of
/// `a` records is the first `a` listed, the page that starts after its last
/// record is the next `b` listed, and the two together are the page of `a + b`.
pub proof fn law_pages_continue(s: Seq<Certificate>, kind: IndexKind, start: Option<Seq<char>>, a: nat, b: nat)
    requires
        strictly_sorted(cert_keys(s)),
        0 < a,
        page(s, kind, start, a).len() == a,
    ensures
        page(s, kind, start, a) == matching(s, kind, start).take(a as int),
        page(s, kind, Some(page(s, kind, start, a)[a - 1].cert_id@), b)
            == matching(s, kind, start).subrange(a as int, vstd::math::min((a + b) as int, matching(s, kind, start).len() as int)),
        page(s, kind, start, a) + page(s, kind, Some(page(s, kind, start, a)[a - 1].cert_id@), b)
            == page(s, kind, start, a + b),
{
    let m = matching(s, kind, start);
    assert(a <= m.len());
    if m.len() == a {
        assert(m.take(a as int) =~= m);
    }
    assert(page(s, kind, start, a)[a - 1] == m[a - 1]);
    lemma_listing_continues(s, kind, start, a as int);
    let next = matching(s, kind, Some(m[a - 1].cert_id@));
    let hi = vstd::math::min((a + b) as int, m.len() as int);
    if next.len() <= b {
        assert(next =~= m.subrange(a as int, hi));
    } else {
        assert(next.take(b as int) =~= m.subrange(a as int, hi));
    }
    assert(m.take(a as int) + m.subrange(a as int, hi) =~= m.take(hi));
    if m.len() <= a + b {
        assert(m.take(hi) =~= m);
    }
}

/// The records before the last of a sorted sequence stay sorted.
proof fn lemma_drop_last_sorted(s: Seq<Certificate>)
    requires
        strictly_sorted(cert_keys(s)),
        s.len() > 0,
    ensures
        strictly_sorted(cert_keys(s.drop_last())),
{
    let init = s.drop_last();
    assert forall|i: int, j: int| 0 <= i < j < cert_keys(init).len() implies lex_lt(#[trigger] cert_keys(init)[i], #[trigger] cert_keys(init)[j]) by {
        assert(cert_keys(init)[i] == cert_keys(s)[i] && cert_keys(init)[j] == cert_keys(s)[j]);
    }
}

proof fn lemma_matching_sorted(s: Seq<Certificate>, kind: IndexKind, start: Option<Seq<char>>)
    requires
        strictly_sorted(cert_keys(s)),
    ensures
        strictly_sorted(cert_keys(matching(s, kind, start))),
    decreases s.len(),
{
    if s.len() > 0 {
        let init = s.drop_last();
        lemma_drop_last_sorted(s);
        lemma_matching_sorted(init, kind, start);
        lemma_matching_members(init, kind, start);
        let m = matching(init, kind, start);
        if in_index(s.last(), kind) && after_start(s.last(), start) {
            let n = m.push(s.last());
            let keys = cert_keys(n);
            assert forall|i: int, j: int| 0 <= i < j < keys.len() implies lex_lt(#[trigger] keys[i], #[trigger] keys[j]) by {
                assert(keys[i] == cert_key(n[i]) && keys[j] == cert_key(n[j]));
                if j < m.len() {
                    assert(cert_keys(m)[i] == keys[i] && cert_keys(m)[j] == keys[j]);
                } else {
                    assert(n[i] == m[i]);
                    assert(init.contains(m[i]));
                    lemma_before_last(s, m[i]);
                }
            }
        }
    }
}

/// Every page lists its records strictly ascending by id.
pub proof fn law_pages_ascending(s: Seq<Certificate>, kind: IndexKind, start: Option<Seq<char>>, limit: nat)
    requires
        strictly_sorted(cert_keys(s)),
    ensures
        strictly_sorted(cert_keys(page(s, kind, start, limit))),
{
    lemma_matching_sorted(s, kind, start);
    let m = matching(s, kind, start);
    if m.len() > limit {
        let keys = cert_keys(m.take(limit as int));
        assert forall|i: int, j: int| 0 <= i < j < keys.len() implies lex_lt(#[trigger] keys[i], #[trigger] keys[j]) by {
            assert(keys[i] == cert_keys(m)[i] && keys[j] == cert_keys(m)[j]);
        }
    }
}

/// A lowercase hex digit: `0-9` or `a-f`.
pub open spec fn is_lower_hex_char(c: char) -> bool {
    ('0' <= c && c <= '9') || ('a' <= c && c <= 'f')
}

/// Every string of 64 lowercase hex digits passes the content-hash check,
/// whichever digits it holds and whichever it starts with.
pub proof fn law_hex_hash_is_accepted(h: Seq<char>)
    requires
        h.len() == 64,
        forall|i: int| 0 <= i < 64 ==> is_lower_hex_char(#[trigger] h[i]),
    ensures
        valid_content_hash(h),
{
    assert(is_ascii_chars(h));
    is_ascii_chars_encode_utf8(h);
    assert forall|i: int| 0 <= i < 64 implies is_lower_hex_byte(#[trigger] encode_utf8(h)[i]) by {
        assert(h[i] as u8 == encode_utf8(h)[i]);
    }
}

/// An allowlisted issuer's certificate whose id has 1 to 128 characters,
/// whose content hash is 64 lowercase hex digits, and whose id no record has,
/// is stored as issued and counted, while the count has room.
pub proof fn law_issue_succeeds(s: RegistryView, info: MessageInfo, env: Env, cert: CertificateInput, checks: Seq<AddrCheck>)
    requires
        s.wf(),
        s.issuers.contains(info.sender@),
        0 < cert.cert_id@.len() <= 128,
        cert.content_hash@.len() == 64,
        forall|i: int| 0 <= i < 64 ==> is_lower_hex_char(#[trigger] cert.content_hash@[i]),
        forall|i: int| 0 <= i < s.certificates.len() ==> (#[trigger] s.certificates[i]).cert_id@ != cert.cert_id@,
        s.config matches Some((_, t)) && t < u64::MAX,
    ensures
        execute_state(s, info, env, ExecuteMsg::Issue { cert }, checks) matches Ok(t) && {
            &&& t.certificates.len() == s.certificates.len() + 1
            &&& total_issued(t) == total_issued(s) + 1
            &&& t.issuers == s.issuers
        },
{
    law_hex_hash_is_accepted(cert.content_hash@);
    reveal(store_one);
    assert(!has_cert(s.certificates, cert.cert_id@));
    lemma_store_one(s, cert, info, env);
}

/// The page size is the asked limit up to 100, 100 above it, and 30 when no
/// limit is asked.
pub proof fn law_page_size(limit: Option<u32>)
    ensures
        effective_limit(limit) == match limit {
            None => 30nat,
            Some(l) => if l <= 100 { l as nat } else { 100nat },
        },
{
}

/// A page holds as many of the matching records as asked, or all of them if
/// fewer match.
pub proof fn law_page_length(s: Seq<Certificate>, kind: IndexKind, start: Option<Seq<char>>, n: nat)
    ensures
        page(s, kind, start, n).len() == vstd::math::min(n as int, matching(s, kind, start).len() as int),
{
}

/// A record is listed under a recipient, or under an institution, exactly when
/// its recipient (or institution) is the one asked and its id's bytes come
/// after the start: revoked or not.
pub proof fn law_listing_by_fields(s: Seq<Certificate>, start: Option<Seq<char>>, c: Certificate, id: u64)
    ensures
        matching(s, IndexKind::Recipient(id), start).contains(c) <==> {
            &&& s.contains(c)
            &&& c.recipient_id == id
            &&& (start is None || lex_lt(encode_utf8(start.unwrap()), encode_utf8(c.cert_id@)))
        },
        matching(s, IndexKind::Institution(id), start).contains(c) <==> {
            &&& s.contains(c)
            &&& c.institution_id == id
            &&& (start is None || lex_lt(encode_utf8(start.unwrap()), encode_utf8(c.cert_id@)))
        },
{
    law_listing_is_exact(s, IndexKind::Recipient(id), start, c);
    law_listing_is_exact(s, IndexKind::Institution(id), start, c);
}

/// Two sequences of records with the same ids, recipients and institutions,
/// position by position, list the same ids in the same order.
proof fn lemma_matching_same_keys(a: Seq<Certificate>, b: Seq<Certificate>, kind: IndexKind, start: Option<Seq<char>>)
    requires
        a.len() == b.len(),
        forall|i: int| 0 <= i < a.len() ==> {
            &&& (#[trigger] a[i]).cert_id == b[i].cert_id
            &&& a[i].recipient_id == b[i].recipient_id
            &&& a[i].institution_id == b[i].institution_id
        },
    ensures
        matching(a, kind, start).len() == matching(b, kind, start).len(),
        forall|j: int| 0 <= j < matching(a, kind, start).len() ==>
            (#[trigger] matching(a, kind, start)[j]).cert_id == matching(b, kind, start)[j].cert_id,
    decreases a.len(),
{
    if a.len() > 0 {
        let (ia, ib) = (a.drop_last(), b.drop_last());
        assert forall|i: int| 0 <= i < ia.len() implies {
            &&& (#[trigger] ia[i]).cert_id == ib[i].cert_id
            &&& ia[i].recipient_id == ib[i].recipient_id
            &&& ia[i].institution_id == ib[i].institution_id
        } by {
            assert(ia[i] == a[i] && ib[i] == b[i]);
        }
        lemma_matching_same_keys(ia, ib, kind, start);
        assert(a.last() == a[a.len() - 1] && b.last() == b[b.len() - 1]);
        let ma = matching(ia, kind, start);
        let mb = matching(ib, kind, start);
        if in_index(a.last(), kind) && after_start(a.last(), start) {
            assert forall|j: int| 0 <= j < ma.push(a.last()).len() implies
                (#[trigger] ma.push(a.last())[j]).cert_id == mb.push(b.last())[j].cert_id by {
                if j < ma.len() {
                    assert(ma.push(a.last())[j] == ma[j] && mb.push(b.last())[j] == mb[j]);
                }
            }
        }
    }
}

/// Revoking a certificate changes no listing: every index, from every start,
/// lists the same ids in the same order before and after.
pub proof fn law_revoke_keeps_listings(
    s: RegistryView,
    info: MessageInfo,
    env: Env,
    cert_id: String,
    reason: Option<String>,
    checks: Seq<AddrCheck>,
    kind: IndexKind,
    start: Option<Seq<char>>,
)
    ensures
        execute_state(s, info, env, ExecuteMsg::Revoke { cert_id, reason }, checks) matches Ok(t) ==> {
            &&& matching(t.certificates, kind, start).len() == matching(s.certificates, kind, start).len()
            &&& forall|j: int| 0 <= j < matching(s.certificates, kind, start).len() ==>
                (#[trigger] matching(t.certificates, kind, start)[j]).cert_id == matching(s.certificates, kind, start)[j].cert_id
        },
{
    if let Ok(t) = execute_state(s, info, env, ExecuteMsg::Revoke { cert_id, reason }, checks) {
        let i = cert_index(s.certificates, cert_id@);
        assert(t.certificates == s.certificates.update(i, revoked_certificate(s.certificates[i], env, reason)));
        assert forall|k: int| 0 <= k < t.certificates.len() implies {
            &&& (#[trigger] t.certificates[k]).cert_id == s.certificates[k].cert_id
            &&& t.certificates[k].recipient_id == s.certificates[k].recipient_id
            &&& t.certificates[k].institution_id == s.certificates[k].institution_id
        } by {
        }
        lemma_matching_same_keys(t.certificates, s.certificates, kind, start);
    }
}

/// Any allowlisted issuer can revoke any certificate that is not yet revoked,
/// whoever issued it: the record is marked revoked at the block time with the
/// reason, and nothing else of it changes.
pub proof fn law_any_issuer_revokes(
    s: RegistryView,
    info: MessageInfo,
    env: Env,
    cert_id: String,
    reason: Option<String>,
    checks: Seq<AddrCheck>,
    i: int,
)
    requires
        s.wf(),
        s.issuers.contains(info.sender@),
        0 <= i < s.certificates.len(),
        s.certificates[i].cert_id@ == cert_id@,
        !s.certificates[i].revoked,
    ensures
        execute_state(s, info, env, ExecuteMsg::Revoke { cert_id, reason }, checks) matches Ok(t) && {
            &&& t.certificates.len() == s.certificates.len()
            &&& t.certificates[i] == (Certificate {
                revoked: true,
                revoked_at: Some(env.block_time),
                revoke_reason: reason,
                ..s.certificates[i]
            })
        },
{
    lemma_cert_index(s.certificates, i);
}

/// The address is on the allowlist after a change: it was on it or is added,
/// and it is not removed (the first `n_add` checks are the additions).
pub open spec fn stays_issuer(issuers: Seq<Seq<char>>, checks: Seq<AddrCheck>, n_add: int, x: Seq<char>) -> bool {
    &&& (issuers.contains(x) || exists|k: int| 0 <= k < n_add && (#[trigger] checks[k] matches Ok(a) && a@ == x))
    &&& !exists|k: int| n_add <= k < checks.len() && (#[trigger] checks[k] matches Ok(a) && a@ == x)
}

proof fn lemma_all_ok(checks: Seq<AddrCheck>)
    requires
        forall|k: int| 0 <= k < checks.len() ==> #[trigger] checks[k] is Ok,
    ensures
        first_error(checks) is None,
    decreases checks.len(),
{
    if checks.len() > 0 {
        assert(checks.last() == checks[checks.len() - 1]);
        assert forall|k: int| 0 <= k < checks.drop_last().len() implies #[trigger] checks.drop_last()[k] is Ok by {
            assert(checks.drop_last()[k] == checks[k]);
        }
        lemma_all_ok(checks.drop_last());
    }
}

/// An allowlist change by the owner whose addresses all validate succeeds
/// exactly when some address stays on the list, and the new list holds
/// exactly the addresses that stay: those on it before or added, and not
/// removed. How many are added or removed does not matter.
pub proof fn law_update_issuers_outcome(s: RegistryView, info: MessageInfo, env: Env, add: Vec<String>, remove: Vec<String>, checks: Seq<AddrCheck>)
    requires
        s.wf(),
        s.config matches Some((o, _)) && o == info.sender@,
        checks.len() == add@.len() + remove@.len(),
        forall|k: int| 0 <= k < checks.len() ==> #[trigger] checks[k] is Ok,
    ensures
        (execute_state(s, info, env, ExecuteMsg::UpdateIssuers { add, remove }, checks) is Ok)
            <==> exists|x: Seq<char>| stays_issuer(s.issuers, checks, add@.len() as int, x),
        execute_state(s, info, env, ExecuteMsg::UpdateIssuers { add, remove }, checks) matches Ok(t) ==>
            forall|x: Seq<char>| #[trigger] t.issuers.contains(x) <==> stays_issuer(s.issuers, checks, add@.len() as int, x),
{
    let n = add@.len() as int;
    let adds = checks.take(n);
    let rems = checks.skip(n);
    lemma_all_ok(checks);
    lemma_insert_all(s.issuers, adds);
    let issuers = remove_all(insert_all(s.issuers, adds), rems);
    assert forall|x: Seq<char>| #[trigger] issuers.contains(x) <==> stays_issuer(s.issuers, checks, n, x) by {
        lemma_remove_all_contains(insert_all(s.issuers, adds), rems, x);
        lemma_insert_all_contains(s.issuers, adds, x);
        if validated(adds, x) {
            let k = choose|k: int| 0 <= k < adds.len() && checked(#[trigger] adds[k]) == x;
            assert(adds[k] == checks[k]);
            assert(checks[k] is Ok);
        }
        if exists|k: int| 0 <= k < n && (#[trigger] checks[k] matches Ok(a) && a@ == x) {
            let k = choose|k: int| 0 <= k < n && (#[trigger] checks[k] matches Ok(a) && a@ == x);
            assert(adds[k] == checks[k]);
        }
        if validated(rems, x) {
            let k = choose|k: int| 0 <= k < rems.len() && checked(#[trigger] rems[k]) == x;
            assert(rems[k] == checks[n + k]);
            assert(checks[n + k] is Ok);
        }
        if exists|k: int| n <= k < checks.len() && (#[trigger] checks[k] matches Ok(a) && a@ == x) {
            let k = choose|k: int| n <= k < checks.len() && (#[trigger] checks[k] matches Ok(a) && a@ == x);
            assert(rems[k - n] == checks[k]);
        }
    }
    if issuers.len() > 0 {
        assert(issuers.contains(issuers[0]));
    }
    if exists|x: Seq<char>| stays_issuer(s.issuers, checks, n, x) {
        let x = choose|x: Seq<char>| stays_issuer(s.issuers, checks, n, x);
        assert(issuers.contains(x));
    }
}

} // verus!
