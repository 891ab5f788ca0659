use csp_service::auth::{auth_middleware, issue_token, new_token};
use csp_service::error::ApiError;
use csp_service::keyed_hash::{encode_token, keyed_hash};
use csp_service::state::AppState;
use csp_service::token::{delete_token, get_tokens, CredentialStore, TokenRecord};

const SECRET: &str = "master-secret";

fn state() -> AppState {
    AppState::make_app_state(None, Some(SECRET.to_string())).unwrap()
}

fn counting_bytes() -> [u8; 30] {
    let mut b = [0u8; 30];
    for i in 0..30 {
        b[i] = i as u8;
    }
    b
}

fn listing(store: &CredentialStore) -> Vec<(i64, String)> {
    get_tokens(store).iter().map(|t| (t.id(), t.prefix().clone())).collect()
}

#[test]
fn keyed_hash_is_base64_of_hmac_sha512() {
    assert_eq!(
        keyed_hash("Jefe", "what do ya want for nothing?").unwrap(),
        "Fkt6e/z4GeLjlfvnO1bgo4e9ZCIugx/WECcM1+olBVSXWL91wFqZSm0DT2X48Ob9yuqxo01Ka0tjbgcKOLznNw=="
    );
    assert_eq!(
        keyed_hash("master-secret", "hello").unwrap(),
        "feeNPqWdhE/z2yFS/nHCrVM9O12fS08lRSUn9F4RmE0R82ftfOX3/1NkI7Qa2aNmXUTnc0rYTp+eZTnAN6QOqQ=="
    );
}

#[test]
fn keyed_hash_of_empty_key_and_message() {
    assert_eq!(
        keyed_hash("", "").unwrap(),
        "uTbO6Gyfh6pdPG8uhMtaQjml/lBICm7Ga3CrWx9KxnMMbFFUIbMn7B1pQC5T37Sa1zgesGezOP17DLIiRyJdRw=="
    );
}

#[test]
fn keyed_hash_takes_text_as_utf8() {
    assert_eq!(
        keyed_hash("cl\u{e9}", "jeton-\u{e9}").unwrap(),
        "NUOJXVc+Oqt1bKwsMFdf32mf41tp9GLjq5VFoiZuCDGYWtGfcG9IK+NwmnWcNrA4OL7PYnN1WpQ5KC6J09Fgjw=="
    );
}

#[test]
fn keyed_hash_is_deterministic_and_depends_on_key_and_message() {
    let a = keyed_hash(SECRET, "token").unwrap();
    assert_eq!(a, keyed_hash(SECRET, "token").unwrap());
    assert_ne!(a, keyed_hash("other-secret", "token").unwrap());
    assert_ne!(a, keyed_hash(SECRET, "tokem").unwrap());
    assert_eq!(a.len(), 88);
}

#[test]
fn encode_token_is_padded_standard_base64() {
    assert_eq!(encode_token(&counting_bytes()), "AAECAwQFBgcICQoLDA0ODxAREhMUFRYXGBkaGxwd");
    assert_eq!(encode_token(&[255u8; 30]), "////////////////////////////////////////");
    assert_eq!(encode_token(&[0u8; 30]).len(), 40);
}

#[test]
fn new_tokens_differ_between_calls() {
    let s = state();
    let mut store = CredentialStore::new();
    let a = new_token(&s, &mut store, Some(SECRET)).unwrap();
    let b = new_token(&s, &mut store, Some(SECRET)).unwrap();
    assert_ne!(a.token, b.token);
    assert_ne!(a.hash, b.hash);
    assert_eq!((a.id, b.id), (1, 2));
}

#[test]
fn issue_token_records_prefix_and_hash_but_not_the_token() {
    let mut store = CredentialStore::new();
    let issued = issue_token(SECRET, &mut store, &counting_bytes()).unwrap();
    assert_eq!(issued.id, 1);
    assert_eq!(issued.token, "AAECAwQFBgcICQoLDA0ODxAREhMUFRYXGBkaGxwd");
    assert_eq!(issued.prefix, "AAECA");
    assert_eq!(
        issued.hash,
        "5IVpI/I8by/C7udGgSMh11UFrANF9rJy1PVHY19HV5zK4lp5Vq0IqcTYaA5uWJzMba8TZ3MTPl7H8eI3XpVulw=="
    );
    assert_eq!(
        store.get(1),
        Some(TokenRecord { id: 1, prefix: issued.prefix.clone(), hash: issued.hash.clone() })
    );
    assert_eq!(listing(&store), vec![(1, "AAECA".to_string())]);
}

#[test]
fn new_token_needs_the_master_secret() {
    let s = state();
    let mut store = CredentialStore::new();
    assert_eq!(new_token(&s, &mut store, None), Err(ApiError::Unauthorized));
    assert_eq!(new_token(&s, &mut store, Some("wrong")), Err(ApiError::Unauthorized));
    assert_eq!(new_token(&s, &mut store, Some("")), Err(ApiError::Unauthorized));
    assert_eq!(new_token(&s, &mut store, Some("master-secret-")), Err(ApiError::Unauthorized));
    assert!(listing(&store).is_empty());
}

#[test]
fn new_token_trims_the_presented_secret() {
    let s = state();
    let mut store = CredentialStore::new();
    let issued = new_token(&s, &mut store, Some("  master-secret\t\n")).unwrap();
    assert_eq!(issued.token.len(), 40);
    assert_eq!(listing(&store).len(), 1);
}

#[test]
fn new_token_returns_a_forty_character_token_that_verifies() {
    let s = state();
    let mut store = CredentialStore::new();
    let issued = new_token(&s, &mut store, Some(SECRET)).unwrap();
    assert_eq!(issued.token.chars().count(), 40);
    assert_eq!(issued.prefix, issued.token[..5].to_string());
    assert_eq!(issued.hash, keyed_hash(SECRET, &issued.token).unwrap());
    assert_eq!(auth_middleware(&s, &store, Some(&issued.token)), Ok(issued.id));
}

#[test]
fn any_single_character_mutation_of_a_token_is_unauthorized() {
    let s = state();
    let mut store = CredentialStore::new();
    let issued = new_token(&s, &mut store, Some(SECRET)).unwrap();
    let chars: Vec<char> = issued.token.chars().collect();
    for i in 0..chars.len() {
        let mut mutated = chars.clone();
        mutated[i] = if chars[i] == 'A' { 'B' } else { 'A' };
        let presented: String = mutated.into_iter().collect();
        assert_eq!(auth_middleware(&s, &store, Some(&presented)), Err(ApiError::Unauthorized));
    }
    assert_eq!(auth_middleware(&s, &store, Some(&issued.token)), Ok(issued.id));
}

#[test]
fn auth_middleware_turns_away_missing_and_unknown_tokens_alike() {
    let s = state();
    let mut store = CredentialStore::new();
    new_token(&s, &mut store, Some(SECRET)).unwrap();
    assert_eq!(auth_middleware(&s, &store, None), Err(ApiError::Unauthorized));
    assert_eq!(auth_middleware(&s, &store, Some("")), Err(ApiError::Unauthorized));
    assert_eq!(auth_middleware(&s, &store, Some(SECRET)), Err(ApiError::Unauthorized));
    assert_eq!(auth_middleware(&s, &CredentialStore::new(), Some("x")), Err(ApiError::Unauthorized));
}

#[test]
fn auth_middleware_does_not_trim_the_token() {
    let s = state();
    let mut store = CredentialStore::new();
    let issued = new_token(&s, &mut store, Some(SECRET)).unwrap();
    let padded = format!(" {}", issued.token);
    assert_eq!(auth_middleware(&s, &store, Some(&padded)), Err(ApiError::Unauthorized));
}

#[test]
fn a_token_of_another_deployment_is_unauthorized() {
    let s = state();
    let other = AppState::make_app_state(None, Some("other-secret".to_string())).unwrap();
    let mut store = CredentialStore::new();
    let issued = new_token(&s, &mut store, Some(SECRET)).unwrap();
    assert_eq!(auth_middleware(&other, &store, Some(&issued.token)), Err(ApiError::Unauthorized));
}

#[test]
fn revoked_token_is_unauthorized() {
    let s = state();
    let mut store = CredentialStore::new();
    let issued = new_token(&s, &mut store, Some(SECRET)).unwrap();
    assert!(auth_middleware(&s, &store, Some(&issued.token)).is_ok());
    let left = delete_token(&mut store, issued.id as u64);
    assert!(left.is_empty());
    assert_eq!(auth_middleware(&s, &store, Some(&issued.token)), Err(ApiError::Unauthorized));
}

#[test]
fn revoking_the_first_of_two_tokens_leaves_the_second() {
    let s = state();
    let mut store = CredentialStore::new();
    let first = new_token(&s, &mut store, Some(SECRET)).unwrap();
    let second = new_token(&s, &mut store, Some(SECRET)).unwrap();
    assert_eq!(listing(&store).len(), 2);
    let left = delete_token(&mut store, first.id as u64);
    assert_eq!(left.len(), 1);
    assert_eq!(left[0].id(), second.id);
    assert_eq!(left[0].prefix(), &second.prefix);
    assert_eq!(listing(&store), vec![(second.id, second.prefix.clone())]);
    assert_eq!(auth_middleware(&s, &store, Some(&second.token)), Ok(second.id));
    assert_eq!(auth_middleware(&s, &store, Some(&first.token)), Err(ApiError::Unauthorized));
}

#[test]
fn revoking_twice_gives_the_same_list() {
    let mut store = CredentialStore::new();
    for b in [1u8, 2, 3] {
        issue_token(SECRET, &mut store, &[b; 30]).unwrap();
    }
    let once = delete_token(&mut store, 2);
    let twice = delete_token(&mut store, 2);
    assert_eq!(once, twice);
    let ids: Vec<i64> = once.iter().map(|t| t.id()).collect();
    assert_eq!(ids, vec![1, 3]);
}

#[test]
fn revoking_an_unknown_id_changes_nothing() {
    let mut store = CredentialStore::new();
    issue_token(SECRET, &mut store, &[7u8; 30]).unwrap();
    let before = listing(&store);
    assert_eq!(delete_token(&mut store, 99).len(), 1);
    assert_eq!(delete_token(&mut store, 0).len(), 1);
    assert_eq!(delete_token(&mut store, u64::MAX).len(), 1);
    assert_eq!(delete_token(&mut store, 1u64 << 63).len(), 1);
    assert_eq!(listing(&store), before);
}

#[test]
fn identities_rise_and_are_not_given_out_again() {
    let mut store = CredentialStore::new();
    assert_eq!(store.insert("aaaaa".to_string(), "h1".to_string()), Some(1));
    assert_eq!(store.insert("bbbbb".to_string(), "h2".to_string()), Some(2));
    store.delete(2);
    assert_eq!(store.insert("ccccc".to_string(), "h3".to_string()), Some(3));
    assert_eq!(
        listing(&store),
        vec![(1, "aaaaa".to_string()), (3, "ccccc".to_string())]
    );
}

#[test]
fn find_by_hash_returns_the_first_record_with_the_hash() {
    let mut store = CredentialStore::new();
    store.insert("aaaaa".to_string(), "h1".to_string());
    store.insert("bbbbb".to_string(), "h2".to_string());
    store.insert("ccccc".to_string(), "h2".to_string());
    assert_eq!(store.find_by_hash(&"h1".to_string()), Some(1));
    assert_eq!(store.find_by_hash(&"h2".to_string()), Some(2));
    assert_eq!(store.find_by_hash(&"h3".to_string()), None);
    store.delete(2);
    assert_eq!(store.find_by_hash(&"h2".to_string()), Some(3));
}

#[test]
fn get_finds_a_record_by_its_identity() {
    let mut store = CredentialStore::new();
    store.insert("aaaaa".to_string(), "h1".to_string());
    assert_eq!(
        store.get(1),
        Some(TokenRecord { id: 1, prefix: "aaaaa".to_string(), hash: "h1".to_string() })
    );
    assert_eq!(store.get(2), None);
}

#[test]
fn load_takes_records_with_rising_identities() {
    let records = vec![
        TokenRecord { id: 3, prefix: "aaaaa".to_string(), hash: "h1".to_string() },
        TokenRecord { id: 8, prefix: "bbbbb".to_string(), hash: "h2".to_string() },
    ];
    let mut store = CredentialStore::load(records).unwrap();
    assert_eq!(listing(&store), vec![(3, "aaaaa".to_string()), (8, "bbbbb".to_string())]);
    assert_eq!(store.insert("ccccc".to_string(), "h3".to_string()), Some(9));
    let mut empty = CredentialStore::load(Vec::new()).unwrap();
    assert_eq!(empty.insert("ddddd".to_string(), "h4".to_string()), Some(1));
}

#[test]
fn load_refuses_records_out_of_order_or_without_room() {
    let rec = |id: i64| TokenRecord { id, prefix: "p".to_string(), hash: "h".to_string() };
    assert!(CredentialStore::load(vec![rec(2), rec(1)]).is_none());
    assert!(CredentialStore::load(vec![rec(1), rec(1)]).is_none());
    assert!(CredentialStore::load(vec![rec(1), rec(i64::MAX)]).is_none());
    assert!(CredentialStore::load(vec![rec(i64::MIN), rec(-1), rec(i64::MAX - 1)]).is_some());
}

#[test]
fn a_full_store_issues_nothing_and_fails_as_internal() {
    let rec = TokenRecord { id: i64::MAX - 1, prefix: "p".to_string(), hash: "h".to_string() };
    let mut store = CredentialStore::load(vec![rec]).unwrap();
    assert_eq!(store.insert("q".to_string(), "h2".to_string()), None);
    assert_eq!(issue_token(SECRET, &mut store, &[1u8; 30]), Err(ApiError::Internal));
    assert_eq!(listing(&store), vec![(i64::MAX - 1, "p".to_string())]);
}

#[test]
fn error_kinds_map_to_status_and_text() {
    assert_eq!(ApiError::Unauthorized.status_code(), 401);
    assert_eq!(ApiError::BadRequest.status_code(), 400);
    assert_eq!(ApiError::Internal.status_code(), 500);
    assert_eq!(ApiError::Unauthorized.message(), "Unauthorized");
    assert_eq!(ApiError::BadRequest.message(), "Bad Request");
    assert_eq!(ApiError::Internal.message(), "Internal Server Error");
}
