use pranklin::auth::{AgentNomination, AgentNominationDomain, AgentRegistry, AuthError, AuthService};
use pranklin::permissions;
use pranklin::types::{Address, DepositTx, SetAgentTx, Transaction, TxHash, TxPayload};

fn new_tx(nonce: u64, from: Address, payload: TxPayload) -> Transaction {
    Transaction { nonce, from, payload, tx_hash: TxHash::zero() }
}

fn nomination() -> AgentNomination {
    AgentNomination {
        account: Address::with_last_byte(1),
        agent: Address::with_last_byte(2),
        permissions: permissions::ALL,
        nonce: 1,
    }
}

#[test]
fn test_agent_nomination_eip712_deterministic() {
    let nomination = nomination();
    let domain = AgentNominationDomain::default();
    let hash1 = nomination.eip712_hash(&domain);
    let hash2 = nomination.eip712_hash(&domain);
    assert_eq!(hash1, hash2);
}

#[test]
fn test_agent_nomination_eip712_different_domains() {
    let nomination = nomination();
    let domain1 = AgentNominationDomain::default();
    let domain2 = AgentNominationDomain { chain_id: 2, ..Default::default() };
    let hash1 = nomination.eip712_hash(&domain1);
    let hash2 = nomination.eip712_hash(&domain2);
    assert_ne!(hash1, hash2);
}

#[test]
fn test_agent_registry_basic() {
    let mut registry = AgentRegistry::default();
    let account = Address::with_last_byte(1);
    let agent = Address::with_last_byte(2);

    assert!(!registry.is_authorized(account, agent, permissions::PLACE_ORDER));
    assert_eq!(registry.get_permissions(account, agent), None);

    registry.set_agent(account, agent, permissions::PLACE_ORDER | permissions::CANCEL_ORDER);

    assert!(registry.is_authorized(account, agent, permissions::PLACE_ORDER));
    assert!(registry.is_authorized(account, agent, permissions::CANCEL_ORDER));
    assert!(registry.is_authorized(account, agent, permissions::PLACE_ORDER | permissions::CANCEL_ORDER));
    assert!(!registry.is_authorized(account, agent, permissions::WITHDRAW));

    let perms = registry.get_permissions(account, agent).unwrap();
    assert_eq!(perms, permissions::PLACE_ORDER | permissions::CANCEL_ORDER);

    registry.remove_agent(account, agent);
    assert!(!registry.is_authorized(account, agent, permissions::PLACE_ORDER));
    assert_eq!(registry.get_permissions(account, agent), None);
}

#[test]
fn test_agent_registry_multiple_agents() {
    let mut registry = AgentRegistry::default();
    let account = Address::with_last_byte(1);
    let agent1 = Address::with_last_byte(2);
    let agent2 = Address::with_last_byte(3);

    registry.set_agent(account, agent1, permissions::PLACE_ORDER);
    registry.set_agent(account, agent2, permissions::CANCEL_ORDER);

    let agents = registry.get_agents(account);
    assert_eq!(agents.len(), 2);

    assert!(registry.is_authorized(account, agent1, permissions::PLACE_ORDER));
    assert!(!registry.is_authorized(account, agent1, permissions::CANCEL_ORDER));
    assert!(!registry.is_authorized(account, agent2, permissions::PLACE_ORDER));
    assert!(registry.is_authorized(account, agent2, permissions::CANCEL_ORDER));

    registry.clear_agents(account);
    assert_eq!(registry.get_agents(account).len(), 0);
    assert_eq!(registry.account_count(), 0);
}

#[test]
fn test_agent_registry_update_permissions() {
    let mut registry = AgentRegistry::default();
    let account = Address::with_last_byte(1);
    let agent = Address::with_last_byte(2);

    registry.set_agent(account, agent, permissions::PLACE_ORDER);
    assert_eq!(registry.get_permissions(account, agent), Some(permissions::PLACE_ORDER));

    registry.set_agent(account, agent, permissions::WITHDRAW);
    assert_eq!(registry.get_permissions(account, agent), Some(permissions::WITHDRAW));

    assert!(!registry.is_authorized(account, agent, permissions::PLACE_ORDER));
}

#[test]
fn test_agent_registry_multiple_accounts() {
    let mut registry = AgentRegistry::default();
    let account1 = Address::with_last_byte(1);
    let account2 = Address::with_last_byte(2);
    let agent = Address::with_last_byte(3);

    registry.set_agent(account1, agent, permissions::PLACE_ORDER);
    registry.set_agent(account2, agent, permissions::WITHDRAW);

    assert!(registry.is_authorized(account1, agent, permissions::PLACE_ORDER));
    assert!(!registry.is_authorized(account1, agent, permissions::WITHDRAW));
    assert!(!registry.is_authorized(account2, agent, permissions::PLACE_ORDER));
    assert!(registry.is_authorized(account2, agent, permissions::WITHDRAW));

    assert_eq!(registry.account_count(), 2);
    assert_eq!(registry.total_agent_count(), 2);
}

#[test]
fn test_agent_registry_remove_cleanup() {
    let mut registry = AgentRegistry::default();
    let account = Address::with_last_byte(1);
    let agent = Address::with_last_byte(2);

    registry.set_agent(account, agent, permissions::ALL);
    assert_eq!(registry.account_count(), 1);

    registry.remove_agent(account, agent);
    assert_eq!(registry.account_count(), 0);
    assert_eq!(registry.total_agent_count(), 0);
}

#[test]
fn test_transaction_verification_invalid() {
    let auth = AuthService::default();
    let tx = new_tx(1, Address::with_last_byte(1), TxPayload::Deposit(DepositTx { amount: 1000, asset_id: 0 }));
    // A signer other than the sender is refused.
    assert!(auth.verify_transaction(&tx, Address::zero()).is_err());
}

#[test]
fn test_agent_authorization_basic() {
    let (owner, agent) = (Address::with_last_byte(1), Address::with_last_byte(2));
    let mut auth = AuthService::default();

    assert!(!auth.is_authorized(owner, agent, permissions::PLACE_ORDER));

    auth.set_agent(owner, agent, permissions::PLACE_ORDER);

    assert!(auth.is_authorized(owner, agent, permissions::PLACE_ORDER));
    assert!(!auth.is_authorized(owner, agent, permissions::WITHDRAW));
    assert_eq!(auth.agent_permissions(owner, agent), Some(permissions::PLACE_ORDER));

    auth.remove_agent(owner, agent);
    assert!(!auth.is_authorized(owner, agent, permissions::PLACE_ORDER));
    assert_eq!(auth.agent_permissions(owner, agent), None);
}

#[test]
fn test_agent_multiple_permissions() {
    let (owner, agent) = (Address::with_last_byte(1), Address::with_last_byte(2));
    let mut auth = AuthService::default();

    let perms = permissions::PLACE_ORDER | permissions::CANCEL_ORDER | permissions::MODIFY_ORDER;

    auth.set_agent(owner, agent, perms);

    assert!(auth.is_authorized(owner, agent, permissions::PLACE_ORDER));
    assert!(auth.is_authorized(owner, agent, permissions::CANCEL_ORDER));
    assert!(auth.is_authorized(owner, agent, permissions::MODIFY_ORDER));
    assert!(auth.is_authorized(owner, agent, permissions::PLACE_ORDER | permissions::CANCEL_ORDER));
    assert!(!auth.is_authorized(owner, agent, permissions::WITHDRAW));
}

#[test]
fn test_auth_service_cloneable() {
    let (owner, agent) = (Address::with_last_byte(1), Address::with_last_byte(2));
    let mut auth1 = AuthService::default();
    auth1.set_agent(owner, agent, permissions::ALL);

    let auth2 = auth1.clone();
    assert!(auth2.is_authorized(owner, agent, permissions::ALL));
}

fn signing_key(seed: u8) -> k256::ecdsa::SigningKey {
    k256::ecdsa::SigningKey::from_slice(&[seed; 32]).unwrap()
}

fn address_of_key(key: &k256::ecdsa::SigningKey) -> Address {
    Address::from_bytes(alloy_primitives::Address::from_private_key(key).0 .0)
}

fn sign(key: &k256::ecdsa::SigningKey, digest: &[u8; 32]) -> [u8; 65] {
    let (sig, recid) = key.sign_prehash_recoverable(digest).unwrap();
    let mut out = [0u8; 65];
    out[..64].copy_from_slice(&sig.to_bytes());
    out[64] = recid.to_byte();
    out
}

#[test]
fn test_eip712_hash_depends_on_every_field() {
    let base = nomination();
    let domain = AgentNominationDomain::default();
    let h = base.eip712_hash(&domain);
    let mut other = base;
    other.nonce = 2;
    assert_ne!(h, other.eip712_hash(&domain));
    let mut other = base;
    other.permissions = permissions::PLACE_ORDER;
    assert_ne!(h, other.eip712_hash(&domain));
    let mut other = base;
    other.agent = Address::with_last_byte(9);
    assert_ne!(h, other.eip712_hash(&domain));
    let named = AgentNominationDomain { name: "Other".to_string(), ..Default::default() };
    assert_ne!(h, base.eip712_hash(&named));
}

#[test]
fn test_eip712_hash_known_layout() {
    // The digest is keccak256(0x19 0x01 ‖ domain separator ‖ struct hash).
    let n = nomination();
    let d = AgentNominationDomain::default();
    let k = |b: &[u8]| alloy_primitives::keccak256(b).0;
    let mut dom = Vec::new();
    dom.extend_from_slice(&k(b"EIP712Domain(string name,string version,uint256 chainId,address verifyingContract)"));
    dom.extend_from_slice(&k(b"PranklinPerp"));
    dom.extend_from_slice(&k(b"1"));
    dom.extend_from_slice(&1u64.to_be_bytes());
    dom.extend_from_slice(&[0u8; 20]);
    let mut st = Vec::new();
    st.extend_from_slice(&k(b"AgentNomination(address account,address agent,uint64 permissions,uint64 nonce)"));
    let mut a = [0u8; 20];
    a[19] = 1;
    st.extend_from_slice(&a);
    a[19] = 2;
    st.extend_from_slice(&a);
    st.extend_from_slice(&u64::MAX.to_be_bytes());
    st.extend_from_slice(&1u64.to_be_bytes());
    let mut all = vec![0x19u8, 0x01u8];
    all.extend_from_slice(&k(&dom));
    all.extend_from_slice(&k(&st));
    assert_eq!(n.eip712_hash(&d), k(&all));
}

#[test]
fn test_nominate_agent_signed_by_account() {
    let key = signing_key(7);
    let account = address_of_key(&key);
    let agent = Address::with_last_byte(2);
    let n = AgentNomination { account, agent, permissions: permissions::PLACE_ORDER, nonce: 0 };
    let domain = AgentNominationDomain::default();
    let sig = sign(&key, &n.eip712_hash(&domain));

    assert_eq!(n.verify(&sig, &domain).unwrap(), account);

    let mut auth = AuthService::new();
    assert!(auth.nominate_agent(n, sig, &domain).is_ok());
    assert_eq!(auth.agent_permissions(account, agent), Some(permissions::PLACE_ORDER));
}

#[test]
fn test_nominate_agent_signed_by_someone_else() {
    let key = signing_key(7);
    let stranger = signing_key(8);
    let account = address_of_key(&key);
    let n = AgentNomination { account, agent: Address::with_last_byte(2), permissions: permissions::ALL, nonce: 0 };
    let domain = AgentNominationDomain::default();
    let sig = sign(&stranger, &n.eip712_hash(&domain));

    let mut auth = AuthService::new();
    match auth.nominate_agent(n, sig, &domain) {
        Err(AuthError::Unauthorized { signer, account: acc }) => {
            assert_eq!(signer, address_of_key(&stranger));
            assert_eq!(acc, account);
        }
        other => panic!("unexpected {:?}", other),
    }
    assert_eq!(auth.agent_permissions(account, Address::with_last_byte(2)), None);
}

#[test]
fn test_nominate_agent_wrong_domain_is_refused() {
    let key = signing_key(7);
    let account = address_of_key(&key);
    let n = AgentNomination { account, agent: Address::with_last_byte(2), permissions: permissions::ALL, nonce: 0 };
    let signed_under = AgentNominationDomain { chain_id: 2, ..Default::default() };
    let sig = sign(&key, &n.eip712_hash(&signed_under));
    let mut auth = AuthService::new();
    assert!(auth.nominate_agent(n, sig, &AgentNominationDomain::default()).is_err());
    assert_eq!(auth.agent_permissions(account, Address::with_last_byte(2)), None);
}

#[test]
fn test_nominate_agent_invalid_signature() {
    let mut auth = AuthService::new();
    let n = nomination();
    let r = auth.nominate_agent(n, [0u8; 65], &AgentNominationDomain::default());
    assert!(matches!(r, Err(AuthError::InvalidSignature(_))));
}

#[test]
fn test_verify_with_agent_permissions() {
    let owner = Address::with_last_byte(1);
    let agent = Address::with_last_byte(2);
    let mut auth = AuthService::new();
    auth.set_agent(owner, agent, permissions::PLACE_ORDER);
    let tx = new_tx(0, owner, TxPayload::SetAgent(SetAgentTx { agent: Address::with_last_byte(3), permissions: permissions::ALL }));
    assert_eq!(auth.verify_with_agent(&tx, owner, permissions::WITHDRAW).unwrap(), owner);
    assert_eq!(auth.verify_with_agent(&tx, agent, permissions::PLACE_ORDER).unwrap(), owner);
    assert!(matches!(
        auth.verify_with_agent(&tx, agent, permissions::WITHDRAW),
        Err(AuthError::Unauthorized { .. })
    ));
    assert!(auth.verify_transaction(&tx, owner).is_ok());
    assert!(auth.verify_transaction(&tx, agent).is_err());
}

#[test]
fn recover_signer_returns_the_signing_key_address() {
    let key = signing_key(9);
    let digest = alloy_primitives::keccak256(b"a transaction body").0;
    let sig = sign(&key, &digest);
    let auth = AuthService::new();
    assert_eq!(auth.recover_signer(&sig, &digest).unwrap(), address_of_key(&key));
    let other = alloy_primitives::keccak256(b"another body").0;
    assert!(!matches!(auth.recover_signer(&sig, &other), Ok(a) if a == address_of_key(&key)));
}

#[test]
fn recover_signer_refuses_a_malformed_signature() {
    let auth = AuthService::new();
    let digest = [7u8; 32];
    let sig = [0u8; 65];
    assert!(matches!(auth.recover_signer(&sig, &digest), Err(AuthError::InvalidSignature(_))));
}
