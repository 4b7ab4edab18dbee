use conreg::auth::{
    authenticate, bcrypt_hash, bcrypt_verify, login, update_password, CacheKey, User,
    UserPrincipal,
};
use conreg::state::Command;

#[test]
fn gen_password() {
    let password = "conreg";
    let hashed = bcrypt::hash(password, bcrypt::DEFAULT_COST).unwrap();
    println!("{}", hashed);
}

#[test]
fn login_checks_the_stored_hash() {
    let hash = bcrypt_hash("secret").unwrap();
    let user = User { username: "admin".to_string(), password: hash };
    let (res, cmd) = login(Some(&user), "secret").unwrap();
    assert_eq!(res.username, "admin");
    assert_eq!(res.token.len(), 36);
    match cmd {
        Command::CacheWrite { key, ttl, .. } => {
            assert_eq!(key, format!("oag:user:token:{}", res.token));
            assert_eq!(ttl, Some(604800));
        }
        _ => panic!("expected a cache write"),
    }
    assert!(login(Some(&user), "wrong").is_err());
    assert!(login(None, "secret").is_err());
}

#[test]
fn password_updates_keep_the_username() {
    let user = User { username: "admin".to_string(), password: "old".to_string() };
    let updated = update_password(Some(&user), "fresh").unwrap();
    assert_eq!(updated.username, "admin");
    assert!(bcrypt_verify("fresh", &updated.password));
    assert!(!bcrypt_verify("old", &updated.password));
    assert!(update_password(None, "fresh").is_err());
}

#[test]
fn bearer_tokens_resolve_through_the_cache() {
    let cached = UserPrincipal { username: "admin".to_string(), token: String::new() };
    let u = authenticate(Some(cached), "tok").unwrap();
    assert_eq!(u.username, "admin");
    assert_eq!(u.token, "tok");
    assert!(authenticate(None, "tok").is_err());
}

#[test]
fn token_cache_keys() {
    let k = CacheKey::UserToken("abc".to_string()).key_string();
    assert_eq!(k, "oag:user:token:abc");
}
