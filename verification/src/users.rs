//! Users: the user record and request payloads with their validation rules,
//! an in-memory user repository, and the account services (log-in, OTP
//! sign-up, update) with the HTTP outcome each handler gives.
use vstd::prelude::*;

use crate::hashing::{HashError, PasswordHasher};
use crate::ids::{uuid_hyphenated, uuid_parse, UtcTime};
use crate::session::{
    create_access_token, create_pending_token, create_refresh_token, decode_pending_token,
    pending_claims_at, pending_jwt, pending_payload, session_jwt, TokenError,
};
use crate::text::{chars_of, concat, eq_str};

verus! {

// ---------------------------------------------------------------------------
// Records and payloads
// ---------------------------------------------------------------------------

/// A stored user. The password is a hash, never the plain text.
pub struct User {
    pub id: u128,
    pub username: String,
    pub email: String,
    pub password: String,
    pub created_at: UtcTime,
    pub updated_at: UtcTime,
}

/// The values of a [`User`].
pub struct UserView {
    pub id: u128,
    pub username: Seq<char>,
    pub email: Seq<char>,
    pub password: Seq<char>,
    pub created_at: UtcTime,
    pub updated_at: UtcTime,
}

impl View for User {
    type V = UserView;

    open spec fn view(&self) -> UserView {
        UserView {
            id: self.id,
            username: self.username@,
            email: self.email@,
            password: self.password@,
            created_at: self.created_at,
            updated_at: self.updated_at,
        }
    }
}

impl User {
    /// A copy of the user.
    pub fn duplicate(&self) -> (u: User)
        ensures
            u@ == self@,
    {
        User {
            id: self.id,
            username: self.username.clone(),
            email: self.email.clone(),
            password: self.password.clone(),
            created_at: self.created_at,
            updated_at: self.updated_at,
        }
    }
}

/// A user together with a fresh access token and refresh token.
pub struct AuthUserResponse {
    pub user: User,
    pub token: String,
    pub refresh_token: String,
}

/// Sign-up request.
pub struct CreateUserPayload {
    pub username: String,
    pub email: String,
    pub password: String,
}

/// Profile update request; absent fields keep their value.
pub struct UpdateUserPayload {
    pub username: Option<String>,
    pub email: Option<String>,
    pub password: Option<String>,
}

/// Log-in request.
pub struct LoginPayload {
    pub email: String,
    pub password: String,
}

/// Second step of the sign-up: the pending token and the one-time password.
pub struct VerifyOtpPayload {
    /// The short-lived pending JWT issued by the sign-up request.
    pub pending_token: String,
    /// The 6-digit OTP the user received by email.
    pub otp: String,
}

// ---------------------------------------------------------------------------
// Validation
// ---------------------------------------------------------------------------

/// What the `validator` crate's `email` rule answers for a string.
pub uninterp spec fn email_rule(s: Seq<char>) -> bool;

/// Calls `validator::ValidateEmail::validate_email` on the string; the
/// answer is `email_rule` of it.
#[verifier::external_body]
fn check_email(s: &str) -> (b: bool)
    ensures
        b == email_rule(s@),
{
    validator::ValidateEmail::validate_email(&s)
}

/// The `length(min, max)` rule: the number of characters is within bounds.
pub open spec fn length_ok(s: Seq<char>, min: nat, max: Option<nat>) -> bool {
    min <= s.len() && match max {
        Some(m) => s.len() <= m,
        None => true,
    }
}

fn check_length(s: &str, min: usize, max: Option<usize>) -> (b: bool)
    ensures
        b == length_ok(s@, min as nat, match max {
            Some(m) => Some(m as nat),
            None => None,
        }),
{
    let n = chars_of(s).len();
    min <= n && match max {
        Some(m) => n <= m,
        None => true,
    }
}

/// The names of the failed checks, in order.
pub open spec fn failed_fields(checks: Seq<(bool, Seq<char>)>) -> Seq<Seq<char>>
    decreases checks.len(),
{
    if checks.len() == 0 {
        Seq::empty()
    } else {
        let rest = failed_fields(checks.drop_last());
        if checks.last().0 {
            rest
        } else {
            rest.push(checks.last().1)
        }
    }
}

/// The names in a list of field names.
pub open spec fn names(errs: Seq<&'static str>) -> Seq<Seq<char>> {
    errs.map_values(|e: &'static str| e@)
}

/// Adds `name` to the failed fields unless its check passed.
fn note(errs: &mut Vec<&'static str>, passed: bool, name: &'static str)
    ensures
        names(final(errs)@) == if passed {
            names(old(errs)@)
        } else {
            names(old(errs)@).push(name@)
        },
{
    if !passed {
        errs.push(name);
        proof {
            assert(names(errs@) =~= names(old(errs)@).push(name@));
        }
    }
}

/// Whether an optional field passes a rule (absent fields always do).
pub open spec fn opt_ok(o: Option<String>, rule: spec_fn(Seq<char>) -> bool) -> bool {
    match o {
        Some(s) => rule(s@),
        None => true,
    }
}

/// Whether a name has the `length(min = 3, max = 50)` rule's length.
pub open spec fn username_ok(s: Seq<char>) -> bool {
    length_ok(s, 3, Some(50))
}

/// Whether a password has the `length(min = 6)` rule's length.
pub open spec fn password_ok(s: Seq<char>) -> bool {
    length_ok(s, 6, None)
}

impl CreateUserPayload {
    /// The names of the fields that break their rule, in declaration order:
    /// a username of 3 to 50 characters, a valid email, a password of at
    /// least 6 characters.
    pub fn validate(&self) -> (errs: Vec<&'static str>)
        ensures
            names(errs@) == failed_fields(
                seq![
                    (username_ok(self.username@), "username"@),
                    (email_rule(self.email@), "email"@),
                    (password_ok(self.password@), "password"@),
                ],
            ),
    {
        let mut errs: Vec<&'static str> = Vec::new();
        proof {
            assert(names(errs@) =~= Seq::<Seq<char>>::empty());
        }
        note(&mut errs, check_length(self.username.as_str(), 3, Some(50)), "username");
        note(&mut errs, check_email(self.email.as_str()), "email");
        note(&mut errs, check_length(self.password.as_str(), 6, None), "password");
        proof {
            let checks = seq![
                (username_ok(self.username@), "username"@),
                (email_rule(self.email@), "email"@),
                (password_ok(self.password@), "password"@),
            ];
            assert(checks.drop_last().drop_last().drop_last() =~= Seq::<(bool, Seq<char>)>::empty());
            assert(checks.drop_last().drop_last().last() == checks[0]);
            assert(checks.drop_last().last() == checks[1]);
            reveal_with_fuel(failed_fields, 4);
        }
        errs
    }
}

impl UpdateUserPayload {
    /// The names of the given fields that break their rule (the rules of a
    /// sign-up; absent fields pass).
    pub fn validate(&self) -> (errs: Vec<&'static str>)
        ensures
            names(errs@) == failed_fields(
                seq![
                    (opt_ok(self.username, |s: Seq<char>| username_ok(s)), "username"@),
                    (opt_ok(self.email, |s: Seq<char>| email_rule(s)), "email"@),
                    (opt_ok(self.password, |s: Seq<char>| password_ok(s)), "password"@),
                ],
            ),
    {
        let mut errs: Vec<&'static str> = Vec::new();
        proof {
            assert(names(errs@) =~= Seq::<Seq<char>>::empty());
        }
        let u_ok = match &self.username {
            Some(u) => check_length(u.as_str(), 3, Some(50)),
            None => true,
        };
        note(&mut errs, u_ok, "username");
        let e_ok = match &self.email {
            Some(e) => check_email(e.as_str()),
            None => true,
        };
        note(&mut errs, e_ok, "email");
        let p_ok = match &self.password {
            Some(p) => check_length(p.as_str(), 6, None),
            None => true,
        };
        note(&mut errs, p_ok, "password");
        proof {
            let checks = seq![
                (opt_ok(self.username, |s: Seq<char>| username_ok(s)), "username"@),
                (opt_ok(self.email, |s: Seq<char>| email_rule(s)), "email"@),
                (opt_ok(self.password, |s: Seq<char>| password_ok(s)), "password"@),
            ];
            assert(checks.drop_last().drop_last().drop_last() =~= Seq::<(bool, Seq<char>)>::empty());
            assert(checks.drop_last().drop_last().last() == checks[0]);
            assert(checks.drop_last().last() == checks[1]);
            reveal_with_fuel(failed_fields, 4);
        }
        errs
    }
}

impl LoginPayload {
    /// The names of the fields that break their rule: the email must be valid.
    pub fn validate(&self) -> (errs: Vec<&'static str>)
        ensures
            names(errs@) == failed_fields(seq![(email_rule(self.email@), "email"@)]),
    {
        let mut errs: Vec<&'static str> = Vec::new();
        proof {
            assert(names(errs@) =~= Seq::<Seq<char>>::empty());
        }
        note(&mut errs, check_email(self.email.as_str()), "email");
        proof {
            let checks = seq![(email_rule(self.email@), "email"@)];
            assert(checks.drop_last() =~= Seq::<(bool, Seq<char>)>::empty());
            reveal_with_fuel(failed_fields, 2);
        }
        errs
    }
}

impl VerifyOtpPayload {
    /// The names of the fields that break their rule: the OTP must have
    /// exactly 6 characters.
    pub fn validate(&self) -> (errs: Vec<&'static str>)
        ensures
            names(errs@) == failed_fields(seq![(self.otp@.len() == 6, "otp"@)]),
    {
        let mut errs: Vec<&'static str> = Vec::new();
        proof {
            assert(names(errs@) =~= Seq::<Seq<char>>::empty());
        }
        note(&mut errs, check_length(self.otp.as_str(), 6, Some(6)), "otp");
        proof {
            let checks = seq![(self.otp@.len() == 6, "otp"@)];
            assert(checks.drop_last() =~= Seq::<(bool, Seq<char>)>::empty());
            reveal_with_fuel(failed_fields, 2);
        }
        errs
    }
}

/// The message each failed field gets in a validation answer.
pub const INVALID_VALUE: &'static str = "invalid value";

/// The body of a validation answer (status 422): each failed field with
/// its messages, here the one message `invalid value`.
pub fn field_errors(fields: &Vec<&'static str>) -> (r: Vec<(&'static str, Vec<&'static str>)>)
    ensures
        r@.len() == fields@.len(),
        forall|i: int| 0 <= i < r@.len() ==> #[trigger] r@[i].0 == fields@[i] && r@[i].1@ == seq![INVALID_VALUE],
{
    let mut r: Vec<(&'static str, Vec<&'static str>)> = Vec::new();
    let mut i: usize = 0;
    while i < fields.len()
        invariant
            i <= fields@.len(),
            r@.len() == i,
            forall|j: int| 0 <= j < i ==> #[trigger] r@[j].0 == fields@[j] && r@[j].1@ == seq![INVALID_VALUE],
        decreases fields@.len() - i,
    {
        let messages: Vec<&'static str> = vec![INVALID_VALUE];
        r.push((fields[i], messages));
        i = i + 1;
    }
    r
}

// ---------------------------------------------------------------------------
// In-memory repository
// ---------------------------------------------------------------------------

/// Why the repository could not do what was asked.
#[derive(Debug)]
pub enum RepoError {
    /// No row matched.
    RowNotFound,
    /// The database failed; the message describes how.
    Database(String),
}

/// A user repository held in memory (used by tests and local runs).
pub struct MockUserRepo {
    users: Vec<User>,
}

/// The record a sequence of users keeps for `id`.
pub open spec fn record_of(s: Seq<User>, id: u128) -> UserView {
    s[choose|i: int| 0 <= i < s.len() && s[i].id == id]@
}

/// Whether some user in `s` has id `id`.
pub open spec fn has_id(s: Seq<User>, id: u128) -> bool {
    exists|i: int| 0 <= i < s.len() && s[i].id == id
}

impl View for MockUserRepo {
    type V = Map<u128, UserView>;

    closed spec fn view(&self) -> Map<u128, UserView> {
        Map::new(|id: u128| has_id(self.users@, id), |id: u128| record_of(self.users@, id))
    }
}

/// A user after an update: given fields replace the old ones and the
/// update time is `now`.
pub open spec fn updated_user(u: UserView, p: UpdateUserPayload, now: UtcTime) -> UserView {
    UserView {
        username: match p.username {
            Some(s) => s@,
            None => u.username,
        },
        email: match p.email {
            Some(s) => s@,
            None => u.email,
        },
        password: match p.password {
            Some(s) => s@,
            None => u.password,
        },
        updated_at: now,
        ..u
    }
}

/// Whether `new` is `old` after an update with `p`: each field the payload
/// gives is replaced by the given value, each field it leaves out keeps its
/// value, and the id and creation time stay.
pub open spec fn applies_update(old: UserView, p: UpdateUserPayload, new: UserView) -> bool {
    &&& (p.username matches Some(s) ==> new.username == s@)
    &&& (p.username is None ==> new.username == old.username)
    &&& (p.email matches Some(s) ==> new.email == s@)
    &&& (p.email is None ==> new.email == old.email)
    &&& (p.password matches Some(s) ==> new.password == s@)
    &&& (p.password is None ==> new.password == old.password)
    &&& new.id == old.id
    &&& new.created_at == old.created_at
}

/// An update sets every field the payload gives and keeps every other one.
pub proof fn lemma_update_sets_given_fields(u: UserView, p: UpdateUserPayload, now: UtcTime)
    ensures
        applies_update(u, p, updated_user(u, p, now)),
        updated_user(u, p, now).updated_at == now,
{
}

/// An update that gives no field changes nothing but the time of the last
/// update.
pub proof fn lemma_empty_update_keeps_user(u: UserView, p: UpdateUserPayload, now: UtcTime)
    requires
        p.username is None && p.email is None && p.password is None,
    ensures
        updated_user(u, p, now) == (UserView { updated_at: now, ..u }),
{
}

/// Applying the same update twice gives what applying it once gives (up to
/// the time of the last update).
pub proof fn lemma_update_idempotent(u: UserView, p: UpdateUserPayload, t1: UtcTime, t2: UtcTime)
    ensures
        updated_user(updated_user(u, p, t1), p, t2) == updated_user(u, p, t2),
{
}

impl MockUserRepo {
    /// Every id occurs once.
    pub closed spec fn wf(&self) -> bool {
        forall|i: int, j: int|
            0 <= i < self.users@.len() && 0 <= j < self.users@.len() && i != j ==> self.users@[i].id
                != self.users@[j].id
    }

    proof fn lemma_record_at(&self, i: int)
        requires
            self.wf(),
            0 <= i < self.users@.len(),
        ensures
            self@.dom().contains(self.users@[i].id),
            self@[self.users@[i].id] == self.users@[i]@,
    {
        let id = self.users@[i].id;
        assert(has_id(self.users@, id));
        let j = choose|j: int| 0 <= j < self.users@.len() && self.users@[j].id == id;
        assert(j == i);
    }

    /// An empty repository.
    pub fn new() -> (r: Self)
        ensures
            r.wf(),
            r@ == Map::<u128, UserView>::empty(),
    {
        let r = MockUserRepo { users: Vec::new() };
        assert(r@ =~= Map::<u128, UserView>::empty());
        r
    }

    fn index_of(&self, id: u128) -> (r: Option<usize>)
        requires
            self.wf(),
        ensures
            r matches Some(i) ==> i < self.users@.len() && self.users@[i as int].id == id,
            r is None ==> !self@.dom().contains(id),
    {
        let mut i: usize = 0;
        while i < self.users.len()
            invariant
                i <= self.users@.len(),
                forall|j: int| 0 <= j < i ==> self.users@[j].id != id,
            decreases self.users@.len() - i,
        {
            if self.users[i].id == id {
                return Some(i);
            }
            i = i + 1;
        }
        None
    }

    /// Stores a user with the given id and creation time, replacing any
    /// user with the same id.
    pub fn insert_user(&mut self, user: User)
        requires
            old(self).wf(),
        ensures
            final(self).wf(),
            final(self)@ == old(self)@.insert(user.id, user@),
    {
        let ghost uv = user@;
        let ghost id = user.id;
        match self.index_of(user.id) {
            Some(i) => {
                let ghost before = self.users@;
                self.users.set(i, user);
                proof {
                    assert forall|k: u128| #[trigger] self@.dom().contains(k) == old(self)@.insert(id, uv).dom().contains(k) by {
                        if has_id(before, k) {
                            let j = choose|j: int| 0 <= j < before.len() && before[j].id == k;
                            if j == i {
                                assert(self.users@[i as int].id == k);
                            } else {
                                assert(self.users@[j].id == k);
                            }
                        }
                        if has_id(self.users@, k) {
                            let j = choose|j: int| 0 <= j < self.users@.len() && self.users@[j].id == k;
                            if j != i {
                                assert(before[j].id == k);
                            }
                        }
                    }
                    assert forall|k: u128| self@.dom().contains(k) implies self@[k] == old(self)@.insert(id, uv)[k] by {
                        let j = choose|j: int| 0 <= j < self.users@.len() && self.users@[j].id == k;
                        self.lemma_record_at(j);
                        if k != id {
                            assert(before[j].id == k);
                            old(self).lemma_record_at(j);
                        }
                    }
                    assert(self@ =~= old(self)@.insert(id, uv));
                }
            },
            None => {
                let ghost before = self.users@;
                self.users.push(user);
                proof {
                    let n = before.len() as int;
                    assert forall|a: int, b: int|
                        0 <= a < self.users@.len() && 0 <= b < self.users@.len() && a != b implies self.users@[a].id
                        != self.users@[b].id by {
                        if a == n {
                            assert(!has_id(before, id));
                            assert(before[b].id == self.users@[b].id);
                        } else if b == n {
                            assert(!has_id(before, id));
                            assert(before[a].id == self.users@[a].id);
                        } else {
                            assert(before[a] == self.users@[a]);
                            assert(before[b] == self.users@[b]);
                        }
                    }
                    assert forall|k: u128| #[trigger] self@.dom().contains(k) == old(self)@.insert(id, uv).dom().contains(k) by {
                        if has_id(before, k) {
                            let j = choose|j: int| 0 <= j < before.len() && before[j].id == k;
                            assert(self.users@[j].id == k);
                        }
                        if has_id(self.users@, k) {
                            let j = choose|j: int| 0 <= j < self.users@.len() && self.users@[j].id == k;
                            if j != n {
                                assert(before[j].id == k);
                            }
                        }
                        if k == id {
                            assert(self.users@[n].id == k);
                        }
                    }
                    assert forall|k: u128| self@.dom().contains(k) implies self@[k] == old(self)@.insert(id, uv)[k] by {
                        let j = choose|j: int| 0 <= j < self.users@.len() && self.users@[j].id == k;
                        self.lemma_record_at(j);
                        if j != n {
                            assert(before[j] == self.users@[j]);
                            old(self).lemma_record_at(j);
                        }
                    }
                    assert(self@ =~= old(self)@.insert(id, uv));
                }
            },
        }
    }

    /// Creates a user with a fresh random id from a payload whose password
    /// is already hashed; creation and update time are the current time.
    pub fn create_user(&mut self, payload: CreateUserPayload) -> (u: User)
        requires
            old(self).wf(),
        ensures
            final(self).wf(),
            u.username@ == payload.username@,
            u.email@ == payload.email@,
            u.password@ == payload.password@,
            u.created_at == u.updated_at,
            final(self)@ == old(self)@.insert(u.id, u@),
    {
        let now = crate::ids::now();
        let user = User {
            id: crate::ids::fresh_user_id(),
            username: payload.username,
            email: payload.email,
            password: payload.password,
            created_at: now,
            updated_at: now,
        };
        let copy = user.duplicate();
        self.insert_user(copy);
        user
    }

    /// The user with this id, if any.
    pub fn get_user_by_id(&self, user_id: u128) -> (r: Option<User>)
        requires
            self.wf(),
        ensures
            r is Some <==> self@.dom().contains(user_id),
            r matches Some(u) ==> u@ == self@[user_id],
    {
        match self.index_of(user_id) {
            Some(i) => {
                proof {
                    self.lemma_record_at(i as int);
                }
                Some(self.users[i].duplicate())
            },
            None => None,
        }
    }

    /// A user with this email, if any.
    pub fn get_user_by_email(&self, email: &str) -> (r: Option<User>)
        requires
            self.wf(),
        ensures
            r matches Some(u) ==> self@.dom().contains(u.id) && self@[u.id] == u@ && u.email@ == email@,
            r is None ==> forall|id: u128| #[trigger] self@.dom().contains(id) ==> self@[id].email != email@,
    {
        let mut i: usize = 0;
        while i < self.users.len()
            invariant
                self.wf(),
                i <= self.users@.len(),
                forall|j: int| 0 <= j < i ==> self.users@[j].email@ != email@,
            decreases self.users@.len() - i,
        {
            if eq_str(self.users[i].email.as_str(), email) {
                proof {
                    self.lemma_record_at(i as int);
                }
                return Some(self.users[i].duplicate());
            }
            i = i + 1;
        }
        proof {
            assert forall|id: u128| #[trigger] self@.dom().contains(id) implies self@[id].email != email@ by {
                let j = choose|j: int| 0 <= j < self.users@.len() && self.users@[j].id == id;
                self.lemma_record_at(j);
            }
        }
        None
    }

    /// Applies an update to the user with this id at time `now`; the row
    /// must exist.
    pub fn update_user_at(&mut self, user_id: u128, payload: UpdateUserPayload, now: UtcTime) -> (r: Result<User, RepoError>)
        requires
            old(self).wf(),
        ensures
            final(self).wf(),
            r is Err <==> !old(self)@.dom().contains(user_id),
            r matches Err(e) ==> e is RowNotFound && final(self)@ == old(self)@,
            r matches Ok(u) ==> {
                &&& u.id == user_id
                &&& u@ == updated_user(old(self)@[user_id], payload, now)
                &&& applies_update(old(self)@[user_id], payload, u@)
                &&& u.updated_at == now
                &&& final(self)@ == old(self)@.insert(user_id, u@)
            },
    {
        match self.index_of(user_id) {
            None => Err(RepoError::RowNotFound),
            Some(i) => {
                proof {
                    self.lemma_record_at(i as int);
                }
                let ghost p = payload;
                let cur = self.users[i].duplicate();
                let user = User {
                    id: cur.id,
                    username: match payload.username {
                        Some(s) => s,
                        None => cur.username,
                    },
                    email: match payload.email {
                        Some(s) => s,
                        None => cur.email,
                    },
                    password: match payload.password {
                        Some(s) => s,
                        None => cur.password,
                    },
                    created_at: cur.created_at,
                    updated_at: now,
                };
                assert(user@ == updated_user(old(self)@[user_id], p, now));
                let copy = user.duplicate();
                self.insert_user(copy);
                Ok(user)
            },
        }
    }

    /// Applies an update to the user with this id at the current time.
    pub fn update_user(&mut self, user_id: u128, payload: UpdateUserPayload) -> (r: Result<User, RepoError>)
        requires
            old(self).wf(),
        ensures
            final(self).wf(),
            r is Err <==> !old(self)@.dom().contains(user_id),
            r matches Ok(u) ==> u.id == user_id && final(self)@ == old(self)@.insert(user_id, u@)
                && u@ == updated_user(old(self)@[user_id], payload, u.updated_at)
                && applies_update(old(self)@[user_id], payload, u@),
    {
        let now = crate::ids::now();
        self.update_user_at(user_id, payload, now)
    }

    /// Removes the user with this id, if any.
    pub fn delete_user(&mut self, user_id: u128)
        requires
            old(self).wf(),
        ensures
            final(self).wf(),
            final(self)@ == old(self)@.remove(user_id),
    {
        if let Some(i) = self.index_of(user_id) {
            let ghost before = self.users@;
            self.users.remove(i);
            proof {
                let after = self.users@;
                assert forall|a: int| 0 <= a < after.len() implies #[trigger] after[a] == before[if a < i { a } else { a + 1 }] by {}
                assert forall|k: u128| #[trigger] self@.dom().contains(k) == old(self)@.remove(user_id).dom().contains(k) by {
                    if has_id(before, k) && k != user_id {
                        let j = choose|j: int| 0 <= j < before.len() && before[j].id == k;
                        assert(j != i);
                        let a = if j < i { j } else { j - 1 };
                        assert(after[a].id == k);
                    }
                    if has_id(after, k) {
                        let a = choose|a: int| 0 <= a < after.len() && after[a].id == k;
                        let j = if a < i { a } else { a + 1 };
                        assert(before[j].id == k);
                        assert(j != i);
                    }
                }
                assert forall|a: int, b: int| 0 <= a < after.len() && 0 <= b < after.len() && a != b implies after[a].id != after[b].id by {
                    let ja = if a < i { a } else { a + 1 };
                    let jb = if b < i { b } else { b + 1 };
                    assert(after[a] == before[ja]);
                    assert(after[b] == before[jb]);
                }
                assert forall|k: u128| self@.dom().contains(k) implies self@[k] == old(self)@.remove(user_id)[k] by {
                    let a = choose|a: int| 0 <= a < after.len() && after[a].id == k;
                    self.lemma_record_at(a);
                    let j = if a < i { a } else { a + 1 };
                    assert(before[j] == after[a]);
                    old(self).lemma_record_at(j);
                }
                assert(self@ =~= old(self)@.remove(user_id));
            }
        } else {
            assert(self@ =~= old(self)@.remove(user_id));
        }
    }

    /// The repository is always reachable.
    pub fn ping(&self) -> (r: Result<(), RepoError>)
        ensures
            r is Ok,
    {
        Ok(())
    }
}

// ---------------------------------------------------------------------------
// Services
// ---------------------------------------------------------------------------

/// Why an account operation failed.
#[derive(Debug)]
pub enum ServiceError {
    /// Unknown email or wrong password.
    InvalidCredentials,
    /// Sign-up with an email that already has an account.
    EmailAlreadyRegistered,
    /// The one-time password does not match the pending token.
    InvalidOtp,
    /// Hashing or checking a password failed.
    Hash(HashError),
    /// The pending token was refused.
    Token(TokenError),
    /// The repository failed.
    Repo(RepoError),
}

/// The text of an error, as the handlers compare it.
pub open spec fn error_text(e: ServiceError) -> Seq<char> {
    match e {
        ServiceError::InvalidCredentials => "invalid credentials"@,
        ServiceError::EmailAlreadyRegistered => "email already registered"@,
        ServiceError::InvalidOtp => "invalid OTP"@,
        ServiceError::Hash(_) => "password hashing failed"@,
        ServiceError::Token(TokenError::Expired) => "ExpiredSignature"@,
        ServiceError::Token(TokenError::Invalid) => "InvalidToken"@,
        ServiceError::Token(TokenError::WrongType) => "invalid token type"@,
        ServiceError::Repo(RepoError::RowNotFound) => "no rows returned by a query that expected to return at least one row"@,
        ServiceError::Repo(RepoError::Database(m)) => m@,
    }
}

impl ServiceError {
    /// The error's text (`error_text`).
    pub fn message(&self) -> (s: String)
        ensures
            s@ == error_text(*self),
    {
        match self {
            ServiceError::InvalidCredentials => "invalid credentials".to_owned(),
            ServiceError::EmailAlreadyRegistered => "email already registered".to_owned(),
            ServiceError::InvalidOtp => "invalid OTP".to_owned(),
            ServiceError::Hash(_) => "password hashing failed".to_owned(),
            ServiceError::Token(TokenError::Expired) => "ExpiredSignature".to_owned(),
            ServiceError::Token(TokenError::Invalid) => "InvalidToken".to_owned(),
            ServiceError::Token(TokenError::WrongType) => "invalid token type".to_owned(),
            ServiceError::Repo(RepoError::RowNotFound) => {
                "no rows returned by a query that expected to return at least one row".to_owned()
            },
            ServiceError::Repo(RepoError::Database(m)) => m.clone(),
        }
    }
}

/// The tokens issued to a user at `now`: an access token (15 minutes) and a
/// refresh token (30 days).
pub fn issue_tokens(user: User, secret: &str, now: u64) -> (r: AuthUserResponse)
    requires
        now + 2592000 <= u64::MAX,
    ensures
        r.user@ == user@,
        r.token@ == session_jwt(uuid_hyphenated(user.id), (now + 900) as nat, "access"@, secret@),
        r.refresh_token@ == session_jwt(uuid_hyphenated(user.id), (now + 2592000) as nat, "refresh"@, secret@),
        r.token@.len() > 0 && r.refresh_token@.len() > 0,
{
    let token = create_access_token(user.id, secret, now);
    let refresh_token = create_refresh_token(user.id, secret, now);
    AuthUserResponse { user, token, refresh_token }
}

/// Logs a user in. `found` is the user the repository holds for the
/// requested email. Succeeds exactly when there is one and the password
/// matches its hash.
pub fn login<H: PasswordHasher>(found: Option<User>, hasher: &H, password: &str, secret: &str, now: u64) -> (r: Result<AuthUserResponse, ServiceError>)
    requires
        now + 2592000 <= u64::MAX,
    ensures
        found is None ==> r matches Err(ServiceError::InvalidCredentials),
        found matches Some(u) ==> {
            &&& hasher.matches(password@, u.password@) == Some(false) ==> (r matches Err(ServiceError::InvalidCredentials))
            &&& hasher.matches(password@, u.password@) is None ==> (r matches Err(ServiceError::Hash(_)))
            &&& hasher.matches(password@, u.password@) == Some(true) ==> (r matches Ok(a) && a.user@ == u@
                && a.token@ == session_jwt(uuid_hyphenated(u.id), (now + 900) as nat, "access"@, secret@)
                && a.refresh_token@ == session_jwt(uuid_hyphenated(u.id), (now + 2592000) as nat, "refresh"@, secret@))
        },
{
    let user = match found {
        Some(u) => u,
        None => {
            return Err(ServiceError::InvalidCredentials);
        },
    };
    match hasher.verify(password, user.password.as_str()) {
        Err(e) => Err(ServiceError::Hash(e)),
        Ok(false) => Err(ServiceError::InvalidCredentials),
        Ok(true) => Ok(issue_tokens(user, secret, now)),
    }
}

/// The first step of a sign-up, before the one-time password is sent:
/// the email, the username, the password hash, the one-time password and
/// its hash.
pub struct PendingSignup {
    pub email: String,
    pub username: String,
    pub password_hash: String,
    pub otp: String,
    pub otp_hash: String,
}

/// Calls `rand::rng().random_range(100_000..=999_999)`: a random number of
/// six decimal digits.
#[verifier::external_body]
fn random_six_digits() -> (n: u32)
    ensures
        100000 <= n <= 999999,
{
    rand::Rng::random_range(&mut rand::rng(), 100_000u32..=999_999u32)
}

/// A fresh random one-time password: six decimal digits, the first not 0.
pub fn generate_otp() -> (s: String)
    ensures
        s@.len() == 6,
        crate::text::all_dec_digits(s@),
        s@[0] != '0',
        exists|n: nat| 100000 <= n <= 999999 && s@ == #[trigger] crate::text::decimal(n),
{
    let n = random_six_digits();
    let s = crate::text::decimal_string(n as u64);
    proof {
        crate::text::lemma_decimal_six_digits(n as nat);
        assert(s@ == crate::text::decimal(n as nat));
    }
    s
}

/// Starts a sign-up: refuses an email that is already registered
/// (`registered` is whether the repository holds a user with it), hashes
/// the password, draws a one-time password and hashes it. Nothing is
/// stored; the caller sends the one-time password and then asks for the
/// pending token.
pub fn begin_signup<H: PasswordHasher>(registered: bool, payload: CreateUserPayload, hasher: &H) -> (r: Result<PendingSignup, ServiceError>)
    ensures
        registered ==> r matches Err(ServiceError::EmailAlreadyRegistered),
        r matches Ok(p) ==> {
            &&& p.email@ == payload.email@
            &&& p.username@ == payload.username@
            &&& hasher.matches(payload.password@, p.password_hash@) == Some(true)
            &&& p.otp@.len() == 6 && crate::text::all_dec_digits(p.otp@) && p.otp@[0] != '0'
            &&& exists|n: nat| 100000 <= n <= 999999 && p.otp@ == #[trigger] crate::text::decimal(n)
            &&& hasher.matches(p.otp@, p.otp_hash@) == Some(true)
        },
        r matches Err(e) ==> registered || e is Hash,
{
    if registered {
        return Err(ServiceError::EmailAlreadyRegistered);
    }
    let password_hash = match hasher.hash(payload.password.as_str()) {
        Ok(h) => h,
        Err(e) => {
            return Err(ServiceError::Hash(e));
        },
    };
    let otp = generate_otp();
    let otp_hash = match hasher.hash(otp.as_str()) {
        Ok(h) => h,
        Err(e) => {
            return Err(ServiceError::Hash(e));
        },
    };
    Ok(PendingSignup { email: payload.email, username: payload.username, password_hash, otp, otp_hash })
}

/// Finishes the sign-up request once the one-time password was delivered:
/// the pending token carrying the email, username, password hash and OTP
/// hash, valid for 10 minutes.
pub fn finish_signup(pending: &PendingSignup, secret: &str, now: u64) -> (t: String)
    requires
        now + 600 <= u64::MAX,
    ensures
        t@ == pending_jwt("pending"@, pending.email@, pending.username@, pending.password_hash@, pending.otp_hash@, (now + 600) as nat, secret@),
        t@.len() > 0,
        pending_payload(t@, secret@) == Some(("pending"@, pending.email@, pending.username@, pending.password_hash@, pending.otp_hash@, (now + 600) as nat)),
{
    create_pending_token(
        pending.email.as_str(),
        pending.username.as_str(),
        pending.password_hash.as_str(),
        pending.otp_hash.as_str(),
        secret,
        now,
    )
}

/// Checks a one-time password against a pending token at `now` (seconds
/// since the Unix epoch). On success, the
/// user to create: the username and email of the token and the password
/// hash it carries (already hashed).
pub fn verify_otp<H: PasswordHasher>(pending_token: &str, otp: &str, hasher: &H, secret: &str, now: u64) -> (r: Result<CreateUserPayload, ServiceError>)
    ensures
        match pending_claims_at(pending_token@, secret@, now as nat) {
            Err(e) => r matches Err(ServiceError::Token(x)) && x == e,
            Ok(c) => match hasher.matches(otp@, c.4) {
                Some(true) => r matches Ok(p) && p.email@ == c.1 && p.username@ == c.2 && p.password@ == c.3,
                Some(false) => r matches Err(ServiceError::InvalidOtp),
                None => r matches Err(ServiceError::Hash(_)),
            },
        },
{
    let claims = match decode_pending_token(pending_token, secret, now) {
        Ok(c) => c,
        Err(e) => {
            return Err(ServiceError::Token(e));
        },
    };
    match hasher.verify(otp, claims.otp_hash.as_str()) {
        Err(e) => Err(ServiceError::Hash(e)),
        Ok(false) => Err(ServiceError::InvalidOtp),
        Ok(true) => Ok(CreateUserPayload { username: claims.username, email: claims.email, password: claims.password_hash }),
    }
}

/// Prepares a direct sign-up: the payload with its password hashed.
pub fn hash_signup<H: PasswordHasher>(payload: CreateUserPayload, hasher: &H) -> (r: Result<CreateUserPayload, ServiceError>)
    ensures
        r matches Ok(p) ==> p.username@ == payload.username@ && p.email@ == payload.email@
            && hasher.matches(payload.password@, p.password@) == Some(true),
        r matches Err(e) ==> e is Hash,
{
    match hasher.hash(payload.password.as_str()) {
        Ok(h) => Ok(CreateUserPayload { username: payload.username, email: payload.email, password: h }),
        Err(e) => Err(ServiceError::Hash(e)),
    }
}

/// Prepares a profile update: a new password, when given, is hashed;
/// the other fields pass unchanged.
pub fn hash_update<H: PasswordHasher>(payload: UpdateUserPayload, hasher: &H) -> (r: Result<UpdateUserPayload, ServiceError>)
    ensures
        r matches Ok(p) ==> {
            &&& p.username == payload.username
            &&& p.email == payload.email
            &&& payload.password is None ==> p.password is None
            &&& payload.password matches Some(plain) ==> (p.password matches Some(h) && hasher.matches(plain@, h@) == Some(true))
        },
        r matches Err(e) ==> e is Hash && payload.password is Some,
{
    let password = match payload.password {
        Some(plain) => match hasher.hash(plain.as_str()) {
            Ok(h) => Some(h),
            Err(e) => {
                return Err(ServiceError::Hash(e));
            },
        },
        None => None,
    };
    Ok(UpdateUserPayload { username: payload.username, email: payload.email, password })
}

// ---------------------------------------------------------------------------
// What the handlers answer
// ---------------------------------------------------------------------------

/// The outcome of checking a `{user_id}` path segment against the caller.
pub enum PathCheck {
    /// Not a UUID: 400.
    BadRequest,
    /// Another user's id: 403.
    Forbidden,
    /// The caller's own id.
    Own(u128),
}

/// A user may only read, change or delete their own account.
pub fn check_user_path(path: &str, caller: u128) -> (r: PathCheck)
    ensures
        uuid_parse(path@) is None <==> r is BadRequest,
        uuid_parse(path@) matches Some(id) && id != caller <==> r is Forbidden,
        r matches PathCheck::Own(id) ==> id == caller && uuid_parse(path@) == Some(caller),
{
    match crate::ids::parse_user_id(path) {
        None => PathCheck::BadRequest,
        Some(id) => if id != caller {
            PathCheck::Forbidden
        } else {
            PathCheck::Own(id)
        },
    }
}

/// Whether `needle` occurs in `hay`.
pub open spec fn contains_seq(hay: Seq<char>, needle: Seq<char>) -> bool {
    exists|i: int| 0 <= i && i + needle.len() <= hay.len() && #[trigger] hay.subrange(i, i + needle.len()) == needle
}

fn contains_str(hay: &str, needle: &str) -> (b: bool)
    ensures
        b == contains_seq(hay@, needle@),
{
    let h = chars_of(hay);
    let n = chars_of(needle);
    if n.len() > h.len() {
        proof {
            assert forall|i: int| 0 <= i && i + n@.len() <= h@.len() implies #[trigger] hay@.subrange(i, i + needle@.len()) != needle@ by {}
        }
        return false;
    }
    let mut i: usize = 0;
    let last = h.len() - n.len();
    let hl = h.len();
    while i <= last
        invariant
            last == h@.len() - n@.len(),
            hl == h@.len(),
            h@ == hay@,
            n@ == needle@,
            n@.len() <= h@.len(),
            i <= h@.len() - n@.len() + 1,
            forall|k: int| 0 <= k < i ==> #[trigger] hay@.subrange(k, k + needle@.len()) != needle@,
        decreases h@.len() - i,
    {
        let mut j: usize = 0;
        let mut same = true;
        while j < n.len()
            invariant
                h@ == hay@,
                n@ == needle@,
                hl == h@.len(),
                i + n@.len() <= h@.len(),
                j <= n@.len(),
                same == forall|m: int| 0 <= m < j ==> h@[i + m] == n@[m],
            decreases n@.len() - j,
        {
            assert(i + j < h@.len());
            if h[i + j] != n[j] {
                same = false;
            }
            j = j + 1;
        }
        if same {
            assert(hay@.subrange(i as int, i + needle@.len()) =~= needle@);
            return true;
        }
        assert(hay@.subrange(i as int, i + needle@.len()) != needle@) by {
            let m = choose|m: int| 0 <= m < n@.len() && h@[i + m] != n@[m];
            assert(hay@.subrange(i as int, i + needle@.len())[m] != needle@[m]);
        }
        i = i + 1;
    }
    false
}

/// The status of a failed log-in: 401 for an authentication failure (the
/// error text mentions "invalid credentials" or "not found"), 503 for an
/// infrastructure failure.
pub fn login_failure_status(err: &ServiceError) -> (code: u16)
    ensures
        code == (if contains_seq(error_text(*err), "invalid credentials"@) || contains_seq(
            error_text(*err),
            "not found"@,
        ) {
            401u16
        } else {
            503u16
        }),
        err is InvalidCredentials ==> code == 401,
{
    let m = err.message();
    proof {
        if *err is InvalidCredentials {
            reveal_strlit("invalid credentials");
            assert(m@.subrange(0, 0 + "invalid credentials"@.len() as int) =~= "invalid credentials"@);
            assert(contains_seq(m@, "invalid credentials"@));
        }
    }
    if contains_str(m.as_str(), "invalid credentials") || contains_str(m.as_str(), "not found") {
        401
    } else {
        503
    }
}

/// The status of a failed sign-up request: 409 when the error is that the
/// email is taken, 500 otherwise.
pub fn signup_failure_status(err: &ServiceError) -> (code: u16)
    ensures
        code == (if error_text(*err) == "email already registered"@ { 409u16 } else { 500u16 }),
        err is EmailAlreadyRegistered ==> code == 409,
{
    let m = err.message();
    if eq_str(m.as_str(), "email already registered") {
        409
    } else {
        500
    }
}

/// The status of a failed OTP check: 401 when the one-time password is
/// wrong, 500 otherwise.
pub fn verify_otp_failure_status(err: &ServiceError) -> (code: u16)
    ensures
        code == (if error_text(*err) == "invalid OTP"@ { 401u16 } else { 500u16 }),
        err is InvalidOtp ==> code == 401,
{
    let m = err.message();
    if eq_str(m.as_str(), "invalid OTP") {
        401
    } else {
        500
    }
}

} // verus!
