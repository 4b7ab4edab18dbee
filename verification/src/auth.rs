//! Console users and their bearer tokens: login against the stored password
//! hash, the cache key a session token lives under, and password updates.

use vstd::prelude::*;
use vstd::string::StringExecFns;

use crate::state::Command;
use crate::value::{ConfigValue, ValueModel};

verus! {

/// A stored console user: name and password hash.
pub struct User {
    pub username: String,
    pub password: String,
}

/// A logged-in console user, as resolved from a bearer token.
pub struct UserPrincipal {
    pub username: String,
    pub token: String,
}

/// A successful login: the user's name and the fresh session token.
pub struct LoginRes {
    pub username: String,
    pub token: String,
}

/// The cache keys the system uses.
pub enum CacheKey {
    UserToken(String),
}

impl CacheKey {
    /// The key text a session token is cached under.
    pub fn key_string(&self) -> (r: String)
        ensures
            match self {
                CacheKey::UserToken(t) => r@ == "oag:user:token:"@ + t@,
            },
    {
        match self {
            CacheKey::UserToken(t) => {
                let mut s = "oag:user:token:".to_owned();
                s.append(t.as_str());
                s
            },
        }
    }
}

/// How long a session token lives, in seconds: seven days.
pub const SESSION_TTL_SECS: u64 = 604800;

/// Whether a password matches a stored bcrypt hash: the hash carries its
/// own salt and cost, so the outcome is a pure function of the two texts.
/// Its value is computed by bcrypt::verify.
pub uninterp spec fn bcrypt_matches(password: Seq<char>, hash: Seq<char>) -> bool;

/// Relies on bcrypt::verify: re-hashes the password under the salt and cost
/// the stored hash carries and compares; a malformed hash matches nothing.
#[verifier::external_body]
pub fn bcrypt_verify(password: &str, hash: &str) -> (r: bool)
    ensures
        r == bcrypt_matches(password@, hash@),
{
    bcrypt::verify(password, hash).unwrap_or(false)
}

/// Relies on bcrypt::hash: a salted hash of the password; the salt is drawn
/// fresh, so nothing can be promised of the text.
#[verifier::external_body]
pub fn bcrypt_hash(password: &str) -> (r: Option<String>) {
    bcrypt::hash(password, bcrypt::DEFAULT_COST).ok()
}

/// Relies on uuid::Uuid::new_v4: a fresh random token; its hyphenated text
/// form is 36 characters.
#[verifier::external_body]
pub fn uuid_token() -> (r: String)
    ensures
        r@.len() == 36,
{
    uuid::Uuid::new_v4().to_string()
}

/// Resolves a bearer token against the cache's answer: a cached principal
/// logs in with the presented token attached; a miss means the caller must
/// log in.
pub fn authenticate(cached: Option<UserPrincipal>, token: &str) -> (r: Result<UserPrincipal, ()>)
    ensures
        match r {
            Ok(u) => cached is Some && u.username@ == cached->Some_0.username@ && u.token@
                == token@,
            Err(_) => cached is None,
        },
{
    match cached {
        Some(u) => Ok(UserPrincipal { username: u.username, token: token.to_owned() }),
        None => Err(()),
    }
}

/// The outcome of a login once the stored user and the hash check are known:
/// a wrong user or password is rejected with no hint which of the two it
/// was; success hands back the token and the replicated cache write that
/// makes the session visible to every node.
pub fn login_outcome(user: Option<&User>, password_ok: bool, token: String) -> (r: Result<
    (LoginRes, Command),
    (),
>)
    ensures
        match r {
            Ok((res, cmd)) => user is Some && password_ok && res.username@
                == user->Some_0.username@ && res.token@ == token@ && (match cmd {
                Command::CacheWrite { key, value, ttl } => key@ == "oag:user:token:"@ + token@
                    && ttl == Some(SESSION_TTL_SECS) && value@ == ValueModel::Mapping(
                    seq![
                        (
                            ValueModel::Str("username"@),
                            ValueModel::Str(user->Some_0.username@),
                        ),
                    ],
                ),
                _ => false,
            }),
            Err(_) => user is None || !password_ok,
        },
{
    match user {
        Some(u) => {
            if !password_ok {
                return Err(());
            }
            let key = CacheKey::UserToken(token.clone()).key_string();
            let mut fields: Vec<(ConfigValue, ConfigValue)> = Vec::new();
            fields.push(
                (ConfigValue::Str("username".to_owned()), ConfigValue::Str(u.username.clone())),
            );
            proof {
                assert(fields@.drop_last() =~= Seq::<(ConfigValue, ConfigValue)>::empty());
                assert(crate::value::entries_model(Seq::<(ConfigValue, ConfigValue)>::empty())
                    =~= Seq::<(ValueModel, ValueModel)>::empty());
                assert(crate::value::value_model(fields@[0].0) == ValueModel::Str("username"@));
                assert(crate::value::value_model(fields@[0].1) == ValueModel::Str(u.username@));
                assert(crate::value::entries_model(fields@) =~= seq![
                    (ValueModel::Str("username"@), ValueModel::Str(u.username@)),
                ]);
            }
            let ghost fm = crate::value::entries_model(fields@);
            let value = ConfigValue::Mapping(fields);
            proof {
                assert(value@ == ValueModel::Mapping(fm));
            }
            let cmd = Command::CacheWrite { key, value, ttl: Some(SESSION_TTL_SECS) };
            let res = LoginRes { username: u.username.clone(), token };
            Ok((res, cmd))
        },
        None => Err(()),
    }
}

/// Handles a login request: succeeds exactly when a stored user is given
/// and the password matches its hash, drawing a fresh session token and the
/// replicated cache write that installs it.
pub fn login(user: Option<&User>, password: &str) -> (r: Result<(LoginRes, Command), ()>)
    ensures
        r is Ok <==> (user is Some && bcrypt_matches(password@, user->Some_0.password@)),
        match r {
            Ok((res, cmd)) => user is Some && res.username@ == user->Some_0.username@ && (match cmd {
                Command::CacheWrite { key, value, ttl } => key@ == "oag:user:token:"@ + res.token@
                    && ttl == Some(SESSION_TTL_SECS),
                _ => false,
            }),
            Err(_) => true,
        },
{
    let ok = match user {
        Some(u) => bcrypt_verify(password, u.password.as_str()),
        None => false,
    };
    let token = uuid_token();
    login_outcome(user, ok, token)
}

/// The updated user row of a password change: the stored user keeps its name
/// and takes the fresh hash; a missing user or a failed hashing is rejected.
pub fn plan_update_password(user: Option<&User>, hashed: Option<String>) -> (r: Result<User, ()>)
    ensures
        match r {
            Ok(u) => user is Some && hashed is Some && u.username@ == user->Some_0.username@
                && u.password@ == hashed->Some_0@,
            Err(_) => user is None || hashed is None,
        },
{
    match (user, hashed) {
        (Some(u), Some(h)) => Ok(User { username: u.username.clone(), password: h }),
        (Some(_), None) => Err(()),
        (None, _) => Err(()),
    }
}

/// Handles a password change: hashes the new password with a fresh salt and
/// returns the updated user row; rejected only for a missing user or a
/// failed hashing.
pub fn update_password(user: Option<&User>, new_password: &str) -> (r: Result<User, ()>)
    ensures
        match r {
            Ok(u) => user is Some && u.username@ == user->Some_0.username@,
            Err(_) => true,
        },
        user is None ==> r is Err,
{
    let hashed = bcrypt_hash(new_password);
    plan_update_password(user, hashed)
}

/// Ends a session: the cache key to drop on every node.
pub fn logout_key(user: &UserPrincipal) -> (r: String)
    ensures
        r@ == "oag:user:token:"@ + user.token@,
{
    let mut s = "oag:user:token:".to_owned();
    s.append(user.token.as_str());
    s
}

} // verus!
