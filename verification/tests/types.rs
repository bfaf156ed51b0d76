//! Shared value types: byte equality and copies.

use shadeswap::types::{
    addr_eq, bytes_eq, clone_bytes, clone_token_pair, token_pair_eq, token_type_eq, Addr,
    CountResponse, TokenPair, TokenType,
};

fn token(name: &str) -> TokenType {
    TokenType::CustomToken {
        contract_addr: Addr(name.as_bytes().to_vec()),
        token_code_hash: b"hash".to_vec(),
    }
}

#[test]
fn byte_equality_is_exact() {
    assert!(bytes_eq(&b"abc".to_vec(), &b"abc".to_vec()));
    assert!(!bytes_eq(&b"abc".to_vec(), &b"abd".to_vec()));
    assert!(!bytes_eq(&b"abc".to_vec(), &b"ab".to_vec()));
    assert!(bytes_eq(&Vec::new(), &Vec::new()));
}

#[test]
fn address_equality_compares_bytes() {
    assert!(addr_eq(&Addr(b"alice".to_vec()), &Addr(b"alice".to_vec())));
    assert!(!addr_eq(&Addr(b"alice".to_vec()), &Addr(b"bob".to_vec())));
}

#[test]
fn copies_preserve_bytes() {
    let v = b"payload".to_vec();
    assert_eq!(clone_bytes(&v), v);
    let p = TokenPair(token("a"), token("b"));
    let q = clone_token_pair(&p);
    assert!(token_pair_eq(&p, &q));
}

#[test]
fn token_equality_distinguishes_variants() {
    let custom = token("a");
    let native = TokenType::NativeToken { denom: b"uscrt".to_vec() };
    assert!(token_type_eq(&custom, &token("a")));
    assert!(!token_type_eq(&custom, &native));
    assert!(token_type_eq(
        &TokenType::NativeToken { denom: b"uscrt".to_vec() },
        &native
    ));
}

#[test]
fn count_response_holds_its_count() {
    let c = CountResponse { count: 3 };
    assert_eq!(c, CountResponse { count: 3 });
}
