use vstd::prelude::*;

use crate::store::{CredentialStore, with_next_version};
use crate::primitives::{
    password_digest, random_bytes, read_claims, salted_digest, sign_claims, signed_token,
    token_claims,
};

verus! {

/// The number of random bytes in each user's salt.
pub const SALT_LEN: usize = 16;

/// The version a new user's tokens carry.
pub const FIRST_VERSION: i32 = 1;

/// A stored user: the identifier, the salt and salted password digest, and the
/// token version that every valid token of this user must carry.
pub struct User {
    pub id: String,
    pub salt: Vec<u8>,
    pub pw_hash: Vec<u8>,
    pub version: i32,
}

pub ghost struct UserView {
    pub id: Seq<char>,
    pub salt: Seq<u8>,
    pub pw_hash: Seq<u8>,
    pub version: int,
}

impl View for User {
    type V = UserView;

    open spec fn view(&self) -> UserView {
        UserView {
            id: self.id@,
            salt: self.salt@,
            pw_hash: self.pw_hash@,
            version: self.version as int,
        }
    }
}

/// Whether `password` is the one that the stored digest was made from.
pub open spec fn password_matches(user: UserView, password: Seq<char>) -> bool {
    password_digest(password, user.salt) == user.pw_hash
}

/// Compares two byte strings in time that depends on their lengths only.
fn digests_equal(a: &Vec<u8>, b: &Vec<u8>) -> (r: bool)
    ensures
        r == (a@ == b@),
{
    if a.len() != b.len() {
        return false;
    }
    let mut diff: u8 = 0;
    let mut i: usize = 0;
    while i < a.len()
        invariant
            a@.len() == b@.len(),
            i <= a.len(),
            (diff == 0) == (forall|j: int| 0 <= j < i ==> a@[j] == b@[j]),
        decreases a.len() - i,
    {
        let x = a[i];
        let y = b[i];
        let d = x ^ y;
        assert(d == 0 <==> x == y) by (bit_vector)
            requires
                d == x ^ y,
        ;
        assert((diff | d) == 0 <==> (diff == 0 && d == 0)) by (bit_vector);
        diff = diff | d;
        i = i + 1;
    }
    proof {
        if diff == 0 {
            assert(a@ =~= b@);
        }
    }
    diff == 0
}

impl User {
    /// A user with the given salt, the salted digest of `password` and the
    /// first token version.
    pub fn from_salt(id: String, password: &str, salt: Vec<u8>) -> (r: Self)
        ensures
            r.id@ == id@,
            r.salt@ == salt@,
            r.pw_hash@ == password_digest(password@, salt@),
            r.version == FIRST_VERSION,
    {
        let pw_hash = salted_digest(password, salt.as_slice());
        User { id, salt, pw_hash, version: FIRST_VERSION }
    }

    /// A new user with a fresh random salt, or `None` when the system's random
    /// source fails.
    pub fn new(id: String, password: &str) -> (r: Option<Self>)
        ensures
            r is Some ==> {
                let u = r->Some_0;
                &&& u.id@ == id@
                &&& u.salt@.len() == SALT_LEN
                &&& u.pw_hash@ == password_digest(password@, u.salt@)
                &&& u.version == FIRST_VERSION
            },
    {
        match random_bytes(SALT_LEN) {
            Some(salt) => Some(User::from_salt(id, password, salt)),
            None => None,
        }
    }

    pub fn authenticate(&self, password: &str) -> (r: bool)
        ensures
            r == password_matches(self@, password@),
    {
        let hash = salted_digest(password, self.salt.as_slice());
        digests_equal(&hash, &self.pw_hash)
    }

    pub fn id(&self) -> (r: &str)
        ensures
            r@ == self.id@,
    {
        self.id.as_str()
    }

    /// A copy of the record.
    pub fn duplicate(&self) -> (r: Self)
        ensures
            r@ == self@,
    {
        User {
            id: self.id.clone(),
            salt: self.salt.clone(),
            pw_hash: self.pw_hash.clone(),
            version: self.version,
        }
    }
}

/// What a valid token tells about its bearer.
pub struct Claims {
    pub user_id: String,
    pub version: i32,
}

/// A login or signup form.
pub struct Credentials {
    pub user_id: String,
    pub password: String,
}

/// The token that a client presents when it connects.
pub struct Auth {
    pub token: String,
}

/// Why a token is not honoured.
#[derive(Clone, Copy, Debug, PartialEq, Eq, Structural)]
pub enum AuthError {
    /// The signature or the structure is not valid.
    Malformed,
    /// The token's version is not the user's current one.
    Revoked,
    /// No user has the token's subject as identifier.
    UnknownUser,
}

/// Signing the token failed. With an HMAC key this does not happen.
#[derive(Clone, Copy, Debug, PartialEq, Eq, Structural)]
pub struct TokenError;

#[derive(Clone, Copy, Debug, PartialEq, Eq, Structural)]
pub enum RegisterError {
    /// The identifier is taken.
    AlreadyExists,
    /// The system's random source gave no salt.
    SaltUnavailable,
}

#[derive(Clone, Copy, Debug, PartialEq, Eq, Structural)]
pub enum LoginError {
    /// Unknown identifier or wrong password: callers cannot tell which.
    InvalidCredentials,
}

/// An insert whose identifier is already present.
#[derive(Clone, Copy, Debug, PartialEq, Eq, Structural)]
pub struct Conflict;

/// What registering an identifier yields: the new user, or that the
/// identifier was taken.
pub enum RegisterUserResult {
    Success(User),
    UserExists,
    /// The system's random source gave no salt; nothing was stored.
    SaltUnavailable,
}

/// The new user's record, or `None` when the identifier was taken.
pub open spec fn registered_user(r: &RegisterUserResult) -> Option<UserView> {
    match r {
        RegisterUserResult::Success(u) => Some(u@),
        _ => None,
    }
}

/// How one registration of `id` with `password` takes the records from
/// `pre` to `post`: a taken identifier changes nothing; a new one gets a
/// record with a fresh salt, the salted digest and the first version.
pub open spec fn register_effect(
    pre: Map<Seq<char>, UserView>,
    id: Seq<char>,
    password: Seq<char>,
    outcome: Option<UserView>,
    post: Map<Seq<char>, UserView>,
) -> bool {
    match outcome {
        None => pre.contains_key(id) && post == pre,
        Some(u) => {
            &&& !pre.contains_key(id)
            &&& u.id == id
            &&& u.version == FIRST_VERSION as int
            &&& u.salt.len() == SALT_LEN as int
            &&& password_matches(u, password)
            &&& post == pre.insert(id, u)
        },
    }
}

/// Whether the records hold `id` with `password`.
pub open spec fn credentials_valid(
    users: Map<Seq<char>, UserView>,
    id: Seq<char>,
    password: Seq<char>,
) -> bool {
    users.contains_key(id) && password_matches(users[id], password)
}

/// What a token proves against the records: its subject and version, or why
/// it is refused. Tokens are revoked by version: a token is honoured while its
/// version is its user's current one, so a revocation takes effect at the
/// next check.
pub open spec fn authorize_outcome(
    key: Seq<u8>,
    users: Map<Seq<char>, UserView>,
    token: Seq<char>,
) -> Result<(Seq<char>, int), AuthError> {
    match token_claims(key, token) {
        None => Err(AuthError::Malformed),
        Some((id, version)) => {
            if !users.contains_key(id) {
                Err(AuthError::UnknownUser)
            } else if users[id].version != version {
                Err(AuthError::Revoked)
            } else {
                Ok((id, version))
            }
        },
    }
}

/// Registration, login and token checks over a credential store, with the
/// signing key supplied by the caller.
pub struct AuthService {
    store: CredentialStore,
    key: Vec<u8>,
}

impl AuthService {
    pub closed spec fn wf(&self) -> bool {
        self.store.wf()
    }

    /// The user records.
    pub closed spec fn users(&self) -> Map<Seq<char>, UserView> {
        self.store@
    }

    /// The signing key.
    pub closed spec fn key(&self) -> Seq<u8> {
        self.key@
    }

    pub fn new(key: Vec<u8>, store: CredentialStore) -> (r: Self)
        requires
            store.wf(),
        ensures
            r.wf(),
            r.users() == store@,
            r.key() == key@,
    {
        AuthService { store, key }
    }

    /// The record of `id`, if there is one.
    pub fn find_user(&self, id: &String) -> (r: Option<&User>)
        requires
            self.wf(),
        ensures
            match r {
                Some(u) => self.users().contains_key(id@) && u@ == self.users()[id@],
                None => !self.users().contains_key(id@),
            },
    {
        self.store.find(id)
    }

    /// Registers `user_id` with the given salt unless it is taken; the check
    /// and the insert are one step of this exclusive borrow.
    pub fn register_user_with_salt(&mut self, user_id: String, password: &str, salt: Vec<u8>) -> (r:
        RegisterUserResult)
        requires
            old(self).wf(),
            salt@.len() == SALT_LEN,
        ensures
            final(self).wf(),
            final(self).key() == old(self).key(),
            !(r is SaltUnavailable),
            r is Success ==> r->Success_0.salt@ == salt@,
            register_effect(
                old(self).users(),
                user_id@,
                password@,
                registered_user(&r),
                final(self).users(),
            ),
    {
        if self.store.find(&user_id).is_some() {
            return RegisterUserResult::UserExists;
        }
        let user = User::from_salt(user_id, password, salt);
        let stored = user.duplicate();
        let inserted = self.store.insert(stored);
        assert(inserted is Ok);
        RegisterUserResult::Success(user)
    }

    /// Registers `user_id` with a fresh random salt unless it is taken.
    pub fn register_user(&mut self, user_id: String, password: &str) -> (r: RegisterUserResult)
        requires
            old(self).wf(),
        ensures
            final(self).wf(),
            final(self).key() == old(self).key(),
            (r is UserExists) <==> old(self).users().contains_key(user_id@),
            r is Success ==> register_effect(
                old(self).users(),
                user_id@,
                password@,
                registered_user(&r),
                final(self).users(),
            ),
            !(r is Success) ==> final(self).users() == old(self).users(),
    {
        if self.store.find(&user_id).is_some() {
            return RegisterUserResult::UserExists;
        }
        match random_bytes(SALT_LEN) {
            Some(salt) => self.register_user_with_salt(user_id, password, salt),
            None => RegisterUserResult::SaltUnavailable,
        }
    }

    /// A token for `user`, signed with the service's key. When `user` is the
    /// stored record of its identifier, the token is honoured with exactly that
    /// identifier and version.
    pub fn create_token(&self, user: &User) -> (r: Result<String, TokenError>)
        requires
            self.wf(),
        ensures
            r is Ok,
            r is Ok ==> r->Ok_0@ == signed_token(self.key(), user.id@, user.version as int),
            r is Ok ==> token_claims(self.key(), r->Ok_0@) == Some((user.id@, user.version as int)),
            r is Ok && self.users().contains_key(user.id@) && self.users()[user.id@] == user@
                ==> authorize_outcome(self.key(), self.users(), r->Ok_0@) == Ok::<
                (Seq<char>, int),
                AuthError,
            >((user.id@, user.version as int)),
    {
        match sign_claims(self.key.as_slice(), user.id.as_str(), user.version) {
            Ok(token) => Ok(token),
            Err(_) => Err(TokenError),
        }
    }

    /// Registers the credentials with the given salt and returns a token for
    /// the new user.
    pub fn register_with_salt(&mut self, credentials: Credentials, salt: Vec<u8>) -> (r: Result<
        String,
        RegisterError,
    >)
        requires
            old(self).wf(),
            salt@.len() == SALT_LEN,
        ensures
            final(self).wf(),
            final(self).key() == old(self).key(),
            (r == Err::<String, RegisterError>(RegisterError::AlreadyExists)) <==> old(
                self,
            ).users().contains_key(credentials.user_id@),
            old(self).users().contains_key(credentials.user_id@) ==> final(self).users() == old(
                self,
            ).users(),
            !old(self).users().contains_key(credentials.user_id@) ==> {
                &&& r is Ok
                &&& final(self).users() == old(self).users().insert(
                    credentials.user_id@,
                    UserView {
                        id: credentials.user_id@,
                        salt: salt@,
                        pw_hash: password_digest(credentials.password@, salt@),
                        version: FIRST_VERSION as int,
                    },
                )
                &&& r->Ok_0@ == signed_token(
                    final(self).key(),
                    credentials.user_id@,
                    FIRST_VERSION as int,
                )
                &&& authorize_outcome(final(self).key(), final(self).users(), r->Ok_0@) == Ok::<
                    (Seq<char>, int),
                    AuthError,
                >((credentials.user_id@, FIRST_VERSION as int))
            },
    {
        let ghost salt_view = salt@;
        let result = self.register_user_with_salt(
            credentials.user_id,
            credentials.password.as_str(),
            salt,
        );
        match result {
            RegisterUserResult::Success(user) => {
                let token = self.create_token(&user);
                match token {
                    Ok(token) => {
                        assert(user@ == UserView {
                            id: credentials.user_id@,
                            salt: salt_view,
                            pw_hash: password_digest(credentials.password@, salt_view),
                            version: FIRST_VERSION as int,
                        });
                        Ok(token)
                    },
                    // `create_token` always succeeds; this arm is never taken.
                    Err(_) => Err(RegisterError::SaltUnavailable),
                }
            },
            _ => Err(RegisterError::AlreadyExists),
        }
    }

    /// Registers the credentials with a fresh random salt and returns a token
    /// for the new user.
    pub fn register(&mut self, credentials: Credentials) -> (r: Result<String, RegisterError>)
        requires
            old(self).wf(),
        ensures
            final(self).wf(),
            final(self).key() == old(self).key(),
            (r == Err::<String, RegisterError>(RegisterError::AlreadyExists)) <==> old(
                self,
            ).users().contains_key(credentials.user_id@),
            r is Err ==> final(self).users() == old(self).users(),
            r is Ok ==> {
                &&& !old(self).users().contains_key(credentials.user_id@)
                &&& register_effect(
                    old(self).users(),
                    credentials.user_id@,
                    credentials.password@,
                    Some(final(self).users()[credentials.user_id@]),
                    final(self).users(),
                )
                &&& r->Ok_0@ == signed_token(
                    final(self).key(),
                    credentials.user_id@,
                    FIRST_VERSION as int,
                )
                &&& authorize_outcome(final(self).key(), final(self).users(), r->Ok_0@) == Ok::<
                    (Seq<char>, int),
                    AuthError,
                >((credentials.user_id@, FIRST_VERSION as int))
            },
    {
        if self.store.find(&credentials.user_id).is_some() {
            return Err(RegisterError::AlreadyExists);
        }
        match random_bytes(SALT_LEN) {
            Some(salt) => self.register_with_salt(credentials, salt),
            None => Err(RegisterError::SaltUnavailable),
        }
    }

    /// Checks the credentials; on a match returns the user's record and a
    /// fresh token, and `None` for an unknown identifier or a wrong password
    /// alike. An unknown identifier costs a digest too, so that the two cases
    /// take about the same time.
    pub fn authenticate(&self, credentials: Credentials) -> (r: Result<
        Option<(User, String)>,
        TokenError,
    >)
        requires
            self.wf(),
        ensures
            r is Ok,
            r->Ok_0 is None <==> !credentials_valid(
                self.users(),
                credentials.user_id@,
                credentials.password@,
            ),
            match r {
                Ok(Some((u, t))) => {
                    &&& u@ == self.users()[credentials.user_id@]
                    &&& u.id@ == credentials.user_id@
                    &&& t@ == signed_token(self.key(), u.id@, u.version as int)
                    &&& authorize_outcome(self.key(), self.users(), t@) == Ok::<
                        (Seq<char>, int),
                        AuthError,
                    >((u.id@, u.version as int))
                },
                _ => true,
            },
    {
        match self.store.find(&credentials.user_id) {
            Some(user) => {
                if user.authenticate(credentials.password.as_str()) {
                    match self.create_token(user) {
                        Ok(token) => Ok(Some((user.duplicate(), token))),
                        Err(e) => Err(e),
                    }
                } else {
                    Ok(None)
                }
            },
            None => {
                let unused_salt: Vec<u8> = vec![0u8; SALT_LEN];
                let _unused = salted_digest(credentials.password.as_str(), unused_salt.as_slice());
                Ok(None)
            },
        }
    }

    /// Logs in: a token for valid credentials, and one error for an unknown
    /// identifier or a wrong password alike.
    pub fn login(&self, credentials: Credentials) -> (r: Result<String, LoginError>)
        requires
            self.wf(),
        ensures
            r is Ok <==> credentials_valid(
                self.users(),
                credentials.user_id@,
                credentials.password@,
            ),
            r is Err ==> r == Err::<String, LoginError>(LoginError::InvalidCredentials),
            r is Ok ==> r->Ok_0@ == signed_token(
                self.key(),
                credentials.user_id@,
                self.users()[credentials.user_id@].version,
            ) && authorize_outcome(self.key(), self.users(), r->Ok_0@) == Ok::<
                (Seq<char>, int),
                AuthError,
            >((credentials.user_id@, self.users()[credentials.user_id@].version)),
    {
        match self.authenticate(credentials) {
            Ok(Some((_user, token))) => Ok(token),
            _ => Err(LoginError::InvalidCredentials),
        }
    }

    /// Adds a record that was made elsewhere (one read back from storage, or
    /// one made before it is persisted).
    pub fn add_user(&mut self, user: User) -> (r: Result<(), Conflict>)
        requires
            old(self).wf(),
        ensures
            final(self).wf(),
            final(self).key() == old(self).key(),
            r is Ok <==> !old(self).users().contains_key(user.id@),
            r is Ok ==> final(self).users() == old(self).users().insert(user.id@, user@),
            r is Err ==> final(self).users() == old(self).users(),
    {
        self.store.insert(user)
    }

    /// Checks a token presented when a client connects.
    pub fn authorize_connection(&self, token: &str) -> (r: Result<Claims, AuthError>)
        requires
            self.wf(),
        ensures
            match r {
                Ok(c) => authorize_outcome(self.key(), self.users(), token@) == Ok::<
                    (Seq<char>, int),
                    AuthError,
                >((c.user_id@, c.version as int)),
                Err(e) => authorize_outcome(self.key(), self.users(), token@) == Err::<
                    (Seq<char>, int),
                    AuthError,
                >(e),
            },
    {
        match read_claims(self.key.as_slice(), token) {
            None => Err(AuthError::Malformed),
            Some((user_id, version)) => {
                match self.store.find(&user_id) {
                    None => Err(AuthError::UnknownUser),
                    Some(user) => {
                        if user.version as i64 == version {
                            Ok(Claims { user_id, version: user.version })
                        } else {
                            Err(AuthError::Revoked)
                        }
                    },
                }
            },
        }
    }

    /// The claims of an honoured token, `None` for any refused one.
    pub fn verify_token(&self, token: &str) -> (r: Option<Claims>)
        requires
            self.wf(),
        ensures
            r is Some <==> authorize_outcome(self.key(), self.users(), token@) is Ok,
            r is Some ==> authorize_outcome(self.key(), self.users(), token@) == Ok::<
                (Seq<char>, int),
                AuthError,
            >((r->Some_0.user_id@, r->Some_0.version as int)),
    {
        match self.authorize_connection(token) {
            Ok(claims) => Some(claims),
            Err(_) => None,
        }
    }

    /// Revokes every token issued to `user_id` so far.
    pub fn revoke_tokens(&mut self, user_id: &String) -> (r: bool)
        requires
            old(self).wf(),
        ensures
            final(self).wf(),
            final(self).key() == old(self).key(),
            r == (old(self).users().contains_key(user_id@) && old(self).users()[user_id@].version
                < i32::MAX),
            r ==> final(self).users() == with_next_version(old(self).users(), user_id@),
            !r ==> final(self).users() == old(self).users(),
    {
        self.store.bump_version(user_id)
    }
}

/// Registering one identifier twice: the first registration succeeds, the
/// second reports the identifier taken and leaves the records as the first
/// left them, with the first password's digest.
pub proof fn lemma_register_twice(
    pre: Map<Seq<char>, UserView>,
    id: Seq<char>,
    first_password: Seq<char>,
    second_password: Seq<char>,
    first: Option<UserView>,
    mid: Map<Seq<char>, UserView>,
    second: Option<UserView>,
    post: Map<Seq<char>, UserView>,
)
    requires
        !pre.contains_key(id),
        register_effect(pre, id, first_password, first, mid),
        register_effect(mid, id, second_password, second, post),
    ensures
        first is Some,
        second is None,
        post == mid,
        post[id] == first->Some_0,
        password_matches(post[id], first_password),
{
}

/// After a registration succeeds, logging in with the same identifier and
/// password is valid, and any password that does not match is refused just as
/// an unknown identifier is.
pub proof fn lemma_login_after_register(
    pre: Map<Seq<char>, UserView>,
    id: Seq<char>,
    password: Seq<char>,
    user: UserView,
    post: Map<Seq<char>, UserView>,
    other_password: Seq<char>,
    unknown: Seq<char>,
    any_password: Seq<char>,
)
    requires
        register_effect(pre, id, password, Some(user), post),
        !password_matches(post[id], other_password),
        !post.contains_key(unknown),
    ensures
        credentials_valid(post, id, password),
        !credentials_valid(post, id, other_password),
        !credentials_valid(post, unknown, any_password),
{
}

/// A token that was honoured is refused as revoked once its user's version
/// has been raised, though its signature still holds.
pub proof fn lemma_revoked_token_refused(
    key: Seq<u8>,
    users: Map<Seq<char>, UserView>,
    token: Seq<char>,
)
    requires
        authorize_outcome(key, users, token) is Ok,
    ensures
        token_claims(key, token) is Some,
        authorize_outcome(key, with_next_version(users, token_claims(key, token)->Some_0.0), token)
            == Err::<(Seq<char>, int), AuthError>(AuthError::Revoked),
{
}

} // verus!
