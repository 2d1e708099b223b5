use vstd::prelude::*;
use crate::bridge::{bcrypt_accepts, fresh_id, hash_password, password_matches};
use crate::error::ServiceError;
use crate::text::str_eq;

verus! {

/// A stored identity record. The hash field holds the output of a salted
/// one-way hashing of the password, never the password itself.
pub struct User {
    pub id: u128,
    pub username: String,
    pub password_hash: String,
}

impl Clone for User {
    fn clone(&self) -> (r: Self)
        ensures
            r == *self,
    {
        User {
            id: self.id,
            username: self.username.clone(),
            password_hash: self.password_hash.clone(),
        }
    }
}

/// A registration request: the username to claim and the password to hash.
pub struct RegisterUser {
    pub username: String,
    pub password: String,
}

/// A login attempt.
pub struct LoginData {
    pub username: String,
    pub password: String,
}

/// Proof of a successful credential check: the verified user's id, and
/// nothing else — in particular no hash ever travels back to a caller.
#[derive(Clone, Copy, Debug, PartialEq, Eq, Structural)]
pub struct SessionGrant {
    pub user_id: u128,
}

/// A user record sequence is well formed when usernames are non-empty and
/// both usernames and ids are unique.
pub open spec fn wf_users(users: Seq<User>) -> bool {
    &&& forall|p: int, q: int|
        0 <= p < q < users.len() ==> (#[trigger] users[p]).username@ != (
        #[trigger] users[q]).username@
    &&& forall|p: int, q: int|
        0 <= p < q < users.len() ==> (#[trigger] users[p]).id != (#[trigger] users[q]).id
    &&& forall|p: int| 0 <= p < users.len() ==> (#[trigger] users[p]).username@.len() > 0
}

/// The first record carrying the given username, if any.
pub open spec fn spec_find_user(users: Seq<User>, name: Seq<char>) -> Option<User>
    decreases users.len(),
{
    if users.len() == 0 {
        None
    } else if users[0].username@ == name {
        Some(users[0])
    } else {
        spec_find_user(users.drop_first(), name)
    }
}

/// Some record carries the given username.
pub open spec fn spec_contains_username(users: Seq<User>, name: Seq<char>) -> bool {
    spec_find_user(users, name) is Some
}

/// Some record carries the given id.
pub open spec fn spec_contains_user_id(users: Seq<User>, id: u128) -> bool {
    exists|k: int| 0 <= k < users.len() && (#[trigger] users[k]).id == id
}

/// What a login attempt returns: the grant for the found user when bcrypt
/// accepts the password against the stored hash, and the one uniform
/// `InvalidCredentials` failure otherwise — the same kind whether the
/// username is unknown or the password is wrong, so that the result never
/// discloses which usernames exist.
pub open spec fn spec_login(users: Seq<User>, name: Seq<char>, password: Seq<char>) -> Result<
    SessionGrant,
    ServiceError,
> {
    match spec_find_user(users, name) {
        None => Err(ServiceError::InvalidCredentials),
        Some(u) => if bcrypt_accepts(password, u.password_hash@) {
            Ok(SessionGrant { user_id: u.id })
        } else {
            Err(ServiceError::InvalidCredentials)
        },
    }
}

/// What `spec_find_user` finding nothing, or something, says about the
/// records one by one.
pub proof fn lemma_find_user_props(users: Seq<User>, name: Seq<char>)
    ensures
        match spec_find_user(users, name) {
            None => forall|k: int|
                0 <= k < users.len() ==> (#[trigger] users[k]).username@ != name,
            Some(u) => users.contains(u) && u.username@ == name,
        },
    decreases users.len(),
{
    if users.len() == 0 {
    } else if users[0].username@ == name {
    } else {
        lemma_find_user_props(users.drop_first(), name);
        match spec_find_user(users, name) {
            None => {
                assert forall|k: int|
                    0 <= k < users.len() implies (#[trigger] users[k]).username@ != name by {
                    if k > 0 {
                        assert(users.drop_first()[k - 1] == users[k]);
                    }
                }
            },
            Some(u) => {
                assert(users.drop_first().contains(u));
                let k = choose|k: int|
                    0 <= k < users.drop_first().len() && users.drop_first()[k] == u;
                assert(users[k + 1] == u);
            },
        }
    }
}

/// Appending a record makes its username found. This is the duplicate-
/// registration law: after a registration succeeds (the records gain that
/// one record, by `register`'s contract), the name is contained, and a
/// second `register` under it must return `DuplicateUsername` with the
/// records unchanged — `register` promises exactly that when the name is
/// contained.
pub proof fn lemma_pushed_username_found(users: Seq<User>, u: User)
    ensures
        spec_contains_username(users.push(u), u.username@),
    decreases users.len(),
{
    if users.len() == 0 {
        assert(users.push(u)[0] == u);
    } else {
        if users[0].username@ != u.username@ {
            assert(users.push(u).drop_first() =~= users.drop_first().push(u));
            lemma_pushed_username_found(users.drop_first(), u);
        }
    }
}

/// The credential store: the persisted identity records. The backing
/// store's I/O lives outside the library; this type is the model of the
/// records that the contracts speak about.
pub struct CredentialStore {
    users: Vec<User>,
}

impl CredentialStore {
    /// The records the store currently holds, in registration order.
    pub closed spec fn records(&self) -> Seq<User> {
        self.users@
    }

    /// Invariant: usernames are non-empty and unique, ids unique.
    pub open spec fn wf(&self) -> bool {
        wf_users(self.records())
    }

    /// An empty store.
    pub fn new() -> (r: CredentialStore)
        ensures
            r.records() == Seq::<User>::empty(),
            r.wf(),
    {
        let r = CredentialStore { users: Vec::new() };
        proof {
            assert(r.records() =~= Seq::<User>::empty());
        }
        r
    }

    /// Whether a record with this id exists.
    fn contains_user_id(&self, id: u128) -> (r: bool)
        ensures
            r == spec_contains_user_id(self.records(), id),
    {
        let n = self.users.len();
        let mut i: usize = 0;
        while i < n
            invariant
                i <= n,
                n == self.records().len(),
                forall|k: int| 0 <= k < i ==> (#[trigger] self.records()[k]).id != id,
            decreases n - i,
        {
            if self.users[i].id == id {
                return true;
            }
            i += 1;
        }
        false
    }

    /// The position of the first record with this username, if any,
    /// agreeing with `spec_find_user`.
    fn find_user_index(&self, name: &str) -> (r: Option<usize>)
        ensures
            match r {
                Some(k) => k < self.records().len() && spec_find_user(self.records(), name@)
                    == Some(self.records()[k as int]),
                None => spec_find_user(self.records(), name@) is None,
            },
    {
        let n = self.users.len();
        let mut i: usize = 0;
        proof {
            assert(self.records().skip(0) =~= self.records());
        }
        while i < n
            invariant
                i <= n,
                n == self.records().len(),
                spec_find_user(self.records(), name@) == spec_find_user(
                    self.records().skip(i as int),
                    name@,
                ),
            decreases n - i,
        {
            proof {
                assert(self.records().skip(i as int)[0] == self.records()[i as int]);
            }
            if str_eq(self.users[i].username.as_str(), name) {
                return Some(i);
            }
            proof {
                assert(self.records().skip(i as int).drop_first() =~= self.records().skip(i + 1));
            }
            i += 1;
        }
        proof {
            assert(self.records().skip(n as int).len() == 0);
        }
        None
    }

    /// Appends one identity record under a caller-supplied fresh id: the
    /// store-level step of registration, after the username check and the
    /// hashing are done.
    ///
    /// A colliding id is the store-level uniqueness violation, reported as
    /// `StoreUnavailable` with no effect; otherwise the record is appended
    /// exactly as supplied — each case if and only if.
    pub fn insert_record(&mut self, id: u128, username: String, password_hash: String) -> (r:
        Result<u128, ServiceError>)
        requires
            old(self).wf(),
            username@.len() > 0,
            !spec_contains_username(old(self).records(), username@),
        ensures
            final(self).wf(),
            spec_contains_user_id(old(self).records(), id) ==> r == Err::<u128, ServiceError>(
                ServiceError::StoreUnavailable,
            ) && final(self).records() == old(self).records(),
            !spec_contains_user_id(old(self).records(), id) ==> r == Ok::<u128, ServiceError>(id)
                && final(self).records() == old(self).records().push(
                (User { id, username, password_hash }),
            ),
    {
        if self.contains_user_id(id) {
            return Err(ServiceError::StoreUnavailable);
        }
        let ghost pre = self.records();
        let record = User { id, username, password_hash };
        self.users.push(record);
        proof {
            lemma_find_user_props(pre, username@);
            assert(self.records() =~= pre.push(User { id, username, password_hash }));
            assert forall|p: int, q: int| 0 <= p < q < self.records().len() implies (
            #[trigger] self.records()[p]).username@ != (#[trigger] self.records()[q]).username@ by {
                if q == pre.len() {
                    assert(self.records()[p] == pre[p]);
                }
            }
            assert forall|p: int, q: int| 0 <= p < q < self.records().len() implies (
            #[trigger] self.records()[p]).id != (#[trigger] self.records()[q]).id by {
                if q == pre.len() {
                    assert(self.records()[p] == pre[p]);
                }
            }
        }
        Ok(id)
    }

    /// Registers a user: hashes the password with the salted one-way
    /// primitive, draws a fresh id and appends the record through
    /// `insert_record` — all of it or none of it.
    ///
    /// `DuplicateUsername` reports an occupied username, exactly then;
    /// `HashingFailure` an internal fault of the hashing primitive; and
    /// `StoreUnavailable` a store-level id collision. On every failure the
    /// records are untouched. On success the one new record holds the
    /// caller's username and a 60-character bcrypt hash that verification
    /// accepts the password against — never the password itself.
    pub fn register(&mut self, req: &RegisterUser) -> (r: Result<u128, ServiceError>)
        requires
            old(self).wf(),
            req.username@.len() > 0,
            req.password@.len() > 0,
        ensures
            final(self).wf(),
            match r {
                Ok(id) => {
                    &&& !spec_contains_username(old(self).records(), req.username@)
                    &&& !spec_contains_user_id(old(self).records(), id)
                    &&& final(self).records().len() == old(self).records().len() + 1
                    &&& final(self).records() == old(self).records().push(
                        final(self).records().last(),
                    )
                    &&& final(self).records().last().id == id
                    &&& final(self).records().last().username@ == req.username@
                    &&& final(self).records().last().password_hash@.len() == 60
                    &&& final(self).records().last().password_hash@[0] == '$'
                    &&& bcrypt_accepts(
                        req.password@,
                        final(self).records().last().password_hash@,
                    )
                },
                Err(e) => {
                    &&& final(self).records() == old(self).records()
                    &&& (e == ServiceError::DuplicateUsername <==> spec_contains_username(
                        old(self).records(),
                        req.username@,
                    ))
                    &&& (e is DuplicateUsername || e is HashingFailure || e is StoreUnavailable)
                },
            },
    {
        if self.find_user_index(req.username.as_str()).is_some() {
            return Err(ServiceError::DuplicateUsername);
        }
        // From here on, only the hashing primitive's own error maps to
        // `HashingFailure`; the store-level step carries its own contract.
        let hashed = match hash_password(req.password.as_str()) {
            Ok(h) => h,
            Err(_) => {
                return Err(ServiceError::HashingFailure);
            },
        };
        let id = fresh_id();
        self.insert_record(id, req.username.clone(), hashed)
    }

    /// Checks a login attempt against the stored records.
    ///
    /// Exactly `spec_login`: the grant when the username is found and
    /// bcrypt accepts the password against the stored hash; the uniform
    /// `InvalidCredentials` otherwise. No response path carries the hash.
    pub fn login(&self, data: &LoginData) -> (r: Result<SessionGrant, ServiceError>)
        ensures
            r == spec_login(self.records(), data.username@, data.password@),
    {
        match self.find_user_index(data.username.as_str()) {
            None => Err(ServiceError::InvalidCredentials),
            Some(k) => {
                let found = &self.users[k];
                if password_matches(data.password.as_str(), found.password_hash.as_str()) {
                    Ok(SessionGrant { user_id: found.id })
                } else {
                    Err(ServiceError::InvalidCredentials)
                }
            },
        }
    }
}

/// The per-caller session: either anonymous or bound to exactly one
/// authenticated user id. Created on login, destroyed on logout; absence
/// of a grant means anonymous.
#[derive(Clone, Copy, Debug, PartialEq, Eq, Structural)]
pub enum SessionState {
    Anonymous,
    Authenticated(u128),
}

impl SessionState {
    /// The state of a caller that has not logged in.
    pub fn anonymous() -> (r: SessionState)
        ensures
            r == SessionState::Anonymous,
    {
        SessionState::Anonymous
    }

    /// Binds the session to the identity a grant carries. `login` is the
    /// one place in this library that produces a grant; a caller that
    /// builds one by hand bypasses the credential check, so the transition
    /// belongs right after a successful `login`.
    pub fn establish(grant: &SessionGrant) -> (r: SessionState)
        ensures
            r == SessionState::Authenticated(grant.user_id),
    {
        SessionState::Authenticated(grant.user_id)
    }

    /// Clears the session unconditionally: always succeeds, and applying
    /// it to an already anonymous session changes nothing.
    pub fn logout(&mut self)
        ensures
            *final(self) == SessionState::Anonymous,
    {
        *self = SessionState::Anonymous;
    }

    /// The authenticated user id, if any.
    pub fn current_user(&self) -> (r: Option<u128>)
        ensures
            match *self {
                SessionState::Anonymous => r is None,
                SessionState::Authenticated(uid) => r == Some(uid),
            },
    {
        match self {
            SessionState::Anonymous => None,
            SessionState::Authenticated(uid) => Some(*uid),
        }
    }
}

/// A failed login looks the same for an unknown username as for a known
/// username with a rejected password: both are `InvalidCredentials`.
pub proof fn lemma_login_failure_uniform(
    users: Seq<User>,
    unknown: Seq<char>,
    pw_a: Seq<char>,
    known: Seq<char>,
    pw_b: Seq<char>,
)
    requires
        spec_find_user(users, unknown) is None,
        spec_find_user(users, known) matches Some(u) && !bcrypt_accepts(pw_b, u.password_hash@),
    ensures
        spec_login(users, unknown, pw_a) == Err::<SessionGrant, ServiceError>(
            ServiceError::InvalidCredentials,
        ),
        spec_login(users, known, pw_b) == Err::<SessionGrant, ServiceError>(
            ServiceError::InvalidCredentials,
        ),
        spec_login(users, unknown, pw_a) == spec_login(users, known, pw_b),
{
}

/// A stored bcrypt hash is never the plaintext it was derived from: the
/// hash is a 60-character string beginning with `$`, so any password of
/// another shape differs from it outright.
pub proof fn lemma_stored_hash_not_plaintext(password: Seq<char>, stored: Seq<char>)
    requires
        stored.len() == 60,
        stored[0] == '$',
        password.len() != 60 || password[0] != '$',
    ensures
        stored != password,
{
}

} // verus!
