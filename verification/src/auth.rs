//! Accounts of the blog: the signed-in user, its permissions, and the
//! decisions taken when someone logs in, signs up or logs out.
//!
//! Passwords are hashed and checked with bcrypt; the database and the
//! session store are driven by the caller, which hands the results in.

use vstd::prelude::*;

use crate::numfmt::digit_char;

verus! {

/// Spec view of a list of strings.
pub open spec fn string_seqs(v: Seq<String>) -> Seq<Seq<char>> {
    v.map_values(|s: String| s@)
}

/// The set of elements of a sequence grows by the pushed element.
proof fn lemma_to_set_push<A>(s: Seq<A>, x: A)
    ensures
        s.push(x).to_set() == s.to_set().insert(x),
{
    assert forall|y: A| s.push(x).contains(y) <==> s.to_set().insert(x).contains(y) by {
        if s.push(x).contains(y) {
            let j = choose|j: int| 0 <= j < s.push(x).len() && s.push(x)[j] == y;
            if j < s.len() {
                assert(s[j] == y);
                assert(s.contains(y));
            }
        }
        if s.contains(y) {
            let j = choose|j: int| 0 <= j < s.len() && s[j] == y;
            assert(s.push(x)[j] == y);
        }
        if y == x {
            assert(s.push(x)[s.len() as int] == y);
        }
    }
    assert(s.push(x).to_set() =~= s.to_set().insert(x));
}

/// The current user, as the session knows it.
#[derive(Clone, Debug)]
pub struct User {
    pub id: u32,
    pub first_name: String,
    pub last_name: String,
    pub username: String,
    pub password_hash: String,
    /// The permission tokens of the user, each held once.
    pub permissions: Vec<String>,
}

impl User {
    /// The permission tokens as character sequences.
    pub open spec fn permission_names(&self) -> Seq<Seq<char>> {
        string_seqs(self.permissions@)
    }

    /// A user holds each permission once.
    pub open spec fn well_formed(&self) -> bool {
        self.permission_names().no_duplicates()
    }

    /// Whether the user holds the permission `perm`.
    pub fn has(&self, perm: &str) -> (b: bool)
        ensures
            b == self.permission_names().contains(perm@),
    {
        let p: String = perm.to_owned();
        let mut i: usize = 0;
        while i < self.permissions.len()
            invariant
                0 <= i <= self.permissions@.len(),
                p@ == perm@,
                forall|j: int| 0 <= j < i ==> self.permission_names()[j] != perm@,
            decreases self.permissions@.len() - i,
        {
            if self.permissions[i].eq(&p) {
                assert(self.permission_names()[i as int] == perm@);
                return true;
            }
            i = i + 1;
        }
        proof {
            if self.permission_names().contains(perm@) {
                let j = choose|j: int|
                    0 <= j < self.permission_names().len() && self.permission_names()[j] == perm@;
                assert(self.permission_names()[j] == perm@);
            }
        }
        false
    }

    /// Every user that the session loads counts as authenticated.
    pub fn is_authenticated(&self) -> (b: bool)
        ensures
            b,
    {
        true
    }

    /// Every user that the session loads counts as active.
    pub fn is_active(&self) -> (b: bool)
        ensures
            b,
    {
        true
    }

    /// No user that the session loads is anonymous.
    pub fn is_anonymous(&self) -> (b: bool)
        ensures
            !b,
    {
        false
    }
}

/// The guest user that stands for a visitor who is not logged in.
impl Default for User {
    fn default() -> (u: Self)
        ensures
            u.id == 0,
            u.first_name@ == "Guest"@,
            u.last_name@ == "Guestington"@,
            u.username@ == "Guest"@,
            u.password_hash@ == ""@,
            u.permissions@.len() == 0,
            u.well_formed(),
    {
        User {
            id: 0,
            first_name: "Guest".to_owned(),
            last_name: "Guestington".to_owned(),
            username: "Guest".to_owned(),
            password_hash: "".to_owned(),
            permissions: Vec::new(),
        }
    }
}

/// One row of the `user_permissions` table.
#[derive(Clone, Debug)]
pub struct SqlPermissionTokens {
    pub token: String,
}

/// The tokens of a list of permission rows.
pub open spec fn token_names(rows: Seq<SqlPermissionTokens>) -> Seq<Seq<char>> {
    rows.map_values(|r: SqlPermissionTokens| r.token@)
}

/// One row of the `users` table.
#[derive(Clone, Debug)]
pub struct SqlUser {
    pub id: u32,
    pub first_name: String,
    pub last_name: String,
    pub username: String,
    pub password_hash: String,
}

impl SqlUser {
    /// The session user for this row, holding each of the given permission
    /// tokens once (none when there are no rows).
    pub fn into_user(self, sql_user_perms: Option<Vec<SqlPermissionTokens>>) -> (u: User)
        ensures
            u.id == self.id,
            u.first_name@ == self.first_name@,
            u.last_name@ == self.last_name@,
            u.username@ == self.username@,
            u.password_hash@ == self.password_hash@,
            u.well_formed(),
            u.permission_names().to_set() == (match sql_user_perms {
                Some(rows) => token_names(rows@).to_set(),
                None => Set::<Seq<char>>::empty(),
            }),
    {
        let mut permissions: Vec<String> = Vec::new();
        match sql_user_perms {
            Some(rows) => {
                let ghost names = token_names(rows@);
                let mut i: usize = 0;
                while i < rows.len()
                    invariant
                        0 <= i <= rows@.len(),
                        names == token_names(rows@),
                        string_seqs(permissions@).no_duplicates(),
                        string_seqs(permissions@).to_set() == names.take(i as int).to_set(),
                    decreases rows@.len() - i,
                {
                    let token: String = rows[i].token.clone();
                    let probe = User {
                        id: 0,
                        first_name: String::new(),
                        last_name: String::new(),
                        username: String::new(),
                        password_hash: String::new(),
                        permissions,
                    };
                    let seen = probe.has(token.as_str());
                    permissions = probe.permissions;
                    let ghost before = string_seqs(permissions@);
                    assert(names.take(i + 1) =~= names.take(i as int).push(token@));
                    if !seen {
                        permissions.push(token);
                        assert(string_seqs(permissions@) =~= before.push(names[i as int]));
                        assert(!before.contains(names[i as int]));
                    }
                    proof {
                        lemma_to_set_push(names.take(i as int), token@);
                        if seen {
                            assert(before.contains(token@));
                            assert(before.to_set().contains(token@));
                            assert(before.to_set().insert(token@) =~= before.to_set());
                        } else {
                            lemma_to_set_push(before, token@);
                        }
                    }
                    i = i + 1;
                }
                assert(names.take(i as int) =~= names);
            },
            None => {
                assert(string_seqs(permissions@).to_set() =~= Set::<Seq<char>>::empty());
            },
        }
        User {
            id: self.id,
            first_name: self.first_name,
            last_name: self.last_name,
            username: self.username,
            password_hash: self.password_hash,
            permissions,
        }
    }
}

/// A user built from permission rows holds exactly the tokens of those
/// rows: `has(t)` answers whether some row carries `t`.
pub proof fn lemma_permissions_from_rows(u: User, rows: Seq<SqlPermissionTokens>, t: Seq<char>)
    requires
        u.permission_names().to_set() == token_names(rows).to_set(),
    ensures
        u.permission_names().contains(t) <==> token_names(rows).contains(t),
{
    assert(u.permission_names().to_set().contains(t) == u.permission_names().contains(t));
    assert(token_names(rows).to_set().contains(t) == token_names(rows).contains(t));
}

#[verifier::external_type_specification]
#[verifier::external_body]
pub struct ExBcryptError(bcrypt::BcryptError);

/// Reads `bcrypt::DEFAULT_COST`, the cost at which passwords are hashed.
/// Trusted: bcrypt defines it as 12.
#[verifier::external_body]
fn bcrypt_default_cost() -> (c: u32)
    ensures
        c == 12,
{
    bcrypt::DEFAULT_COST
}

/// What `bcrypt::verify(password, hash)` returns, its error given by the
/// error's message. It depends on the password and the hash alone.
pub uninterp spec fn bcrypt_verify_outcome(password: Seq<char>, hash: Seq<char>) -> Result<
    bool,
    Seq<char>,
>;

/// True when `hash` is a bcrypt hash that accepts `password`.
pub open spec fn hash_accepts(password: Seq<char>, hash: Seq<char>) -> bool {
    bcrypt_verify_outcome(password, hash) == Ok::<bool, Seq<char>>(true)
}

/// The form of a hash that bcrypt writes at `cost`: sixty characters that
/// begin with `$2b$`, the cost in two decimal digits, and `$`.
pub open spec fn hash_form(h: Seq<char>, cost: nat) -> bool {
    &&& h.len() == 60
    &&& h.subrange(0, 7) == seq!['$', '2', 'b', '$', digit_char(cost / 10), digit_char(cost % 10), '$']
}

/// Calls `bcrypt::verify`, which parses `hash`, hashes `password` again with
/// the cost and salt found there and compares; an error is turned into its
/// message. Trusted: the result is the named outcome of these two arguments.
#[verifier::external_body]
fn bcrypt_verify(password: &str, hash: &str) -> (r: Result<bool, String>)
    ensures
        match r {
            Ok(b) => bcrypt_verify_outcome(password@, hash@) == Ok::<bool, Seq<char>>(b),
            Err(text) => bcrypt_verify_outcome(password@, hash@) == Err::<bool, Seq<char>>(text@),
        },
{
    match bcrypt::verify(password, hash) {
        Ok(b) => Ok(b),
        Err(e) => Err(e.to_string()),
    }
}

/// Calls `bcrypt::hash`, which hashes `password` with a random salt. Trusted:
/// it fails for a cost outside 4..=31; a hash it returns has the form
/// `$2b$<cost, two digits>$<22 salt and 31 digest characters>`, and is one
/// that `bcrypt::verify` accepts for the same password (verify reads back the
/// cost and salt that hash wrote and recomputes the same digest). Which salt,
/// and whether the system's randomness fails, is not stated.
#[verifier::external_body]
fn bcrypt_hash(password: &str, cost: u32) -> (r: Result<String, bcrypt::BcryptError>)
    ensures
        !(4 <= cost <= 31) ==> r is Err,
        r matches Ok(h) ==> hash_accepts(password@, h@) && hash_form(h@, cost as nat),
{
    bcrypt::hash(password, cost)
}

/// Calls `BcryptError`'s `Display` to get its message. Nothing is stated of the text.
#[verifier::external_body]
fn bcrypt_error_text(e: &bcrypt::BcryptError) -> String {
    e.to_string()
}

/// Why a login, a signup or loading a user failed.
#[derive(Clone, Debug)]
pub enum AuthError {
    /// No account has the given username.
    UserDoesNotExist,
    /// The password does not match the account's hash.
    PasswordDoesNotMatch,
    /// The password and its confirmation differ.
    PasswordsDidNotMatch,
    /// The account just created could not be read back.
    SignupUserMissing,
    /// The session refers to a user that cannot be loaded.
    CannotGetUser,
    /// bcrypt failed, with its message.
    Hashing(String),
}

impl AuthError {
    /// The message shown for the error.
    pub fn message(&self) -> (m: String)
        ensures
            match self {
                AuthError::UserDoesNotExist => m@ == "User does not exist."@,
                AuthError::PasswordDoesNotMatch => m@ == "Password does not match."@,
                AuthError::PasswordsDidNotMatch => m@ == "Passwords did not match."@,
                AuthError::SignupUserMissing => m@ == "Signup failed: User does not exist."@,
                AuthError::CannotGetUser => m@ == "Cannot get user"@,
                AuthError::Hashing(text) => m@ == text@,
            },
    {
        match self {
            AuthError::UserDoesNotExist => "User does not exist.".to_owned(),
            AuthError::PasswordDoesNotMatch => "Password does not match.".to_owned(),
            AuthError::PasswordsDidNotMatch => "Passwords did not match.".to_owned(),
            AuthError::SignupUserMissing => "Signup failed: User does not exist.".to_owned(),
            AuthError::CannotGetUser => "Cannot get user".to_owned(),
            AuthError::Hashing(text) => text.clone(),
        }
    }
}

/// What a successful request does to the session.
#[derive(PartialEq, Eq, Structural, Clone, Copy, Debug)]
pub enum SessionChange {
    /// Log the user in, remembering the session when asked to.
    LogIn { user_id: u32, remember: bool },
    /// Log the current user out.
    LogOut,
}

/// Where the browser is sent after a successful login, signup or logout.
pub fn redirect_target() -> (r: &'static str)
    ensures
        r@ == "/"@,
{
    "/"
}

/// The session user for `id`, from what the database returned for it.
pub fn load_user(found: Option<User>) -> (r: Result<User, AuthError>)
    ensures
        match found {
            Some(u) => r == Ok::<User, AuthError>(u),
            None => r == Err::<User, AuthError>(AuthError::CannotGetUser),
        },
{
    match found {
        Some(u) => Ok(u),
        None => Err(AuthError::CannotGetUser),
    }
}

/// The result of a login once the password check has run: `verified` is
/// what bcrypt answered, an error carrying its message.
pub fn login_decision(user_id: u32, verified: Result<bool, String>, remember: bool) -> (r: Result<
    SessionChange,
    AuthError,
>)
    ensures
        match verified {
            Ok(true) => r == Ok::<SessionChange, AuthError>(
                SessionChange::LogIn { user_id, remember },
            ),
            Ok(false) => r == Err::<SessionChange, AuthError>(AuthError::PasswordDoesNotMatch),
            Err(text) => r == Err::<SessionChange, AuthError>(AuthError::Hashing(text)),
        },
{
    match verified {
        Ok(true) => Ok(SessionChange::LogIn { user_id, remember }),
        Ok(false) => Err(AuthError::PasswordDoesNotMatch),
        Err(text) => Err(AuthError::Hashing(text)),
    }
}

/// The result of a login for the account found under the username (if
/// any); `None` when bcrypt fails, which gives `Hashing` with bcrypt's message.
pub open spec fn login_outcome(user: Option<User>, password: Seq<char>, remember: bool) -> Option<
    Result<SessionChange, AuthError>,
> {
    match user {
        None => Some(Err(AuthError::UserDoesNotExist)),
        Some(u) => match bcrypt_verify_outcome(password, u.password_hash@) {
            Ok(true) => Some(Ok(SessionChange::LogIn { user_id: u.id, remember })),
            Ok(false) => Some(Err(AuthError::PasswordDoesNotMatch)),
            Err(_) => None,
        },
    }
}

/// Handles a login request for the account that the database returned for
/// the username: the password must match the account's bcrypt hash.
pub fn login(user: Option<User>, password: &str, remember: Option<String>) -> (r: Result<
    SessionChange,
    AuthError,
>)
    ensures
        match login_outcome(user, password@, remember is Some) {
            Some(expected) => r == expected,
            None => r matches Err(AuthError::Hashing(text)) && user matches Some(u)
                && bcrypt_verify_outcome(password@, u.password_hash@) == Err::<bool, Seq<char>>(
                text@,
            ),
        },
{
    match user {
        None => Err(AuthError::UserDoesNotExist),
        Some(u) => {
            let verified = bcrypt_verify(password, u.password_hash.as_str());
            login_decision(u.id, verified, remember.is_some())
        },
    }
}

/// Checks a signup form's password and hashes it for the new account.
pub fn signup(password: &str, password_confirmation: &str) -> (r: Result<String, AuthError>)
    ensures
        password@ != password_confirmation@ ==> r == Err::<String, AuthError>(
            AuthError::PasswordsDidNotMatch,
        ),
        password@ == password_confirmation@ ==> match r {
            Ok(h) => hash_accepts(password@, h@) && h@.len() == 60 && h@.subrange(0, 7) == "$2b$12$"@,
            Err(e) => e is Hashing,
        },
{
    let p: String = password.to_owned();
    let c: String = password_confirmation.to_owned();
    if !p.eq(&c) {
        return Err(AuthError::PasswordsDidNotMatch);
    }
    let cost = bcrypt_default_cost();
    match bcrypt_hash(password, cost) {
        Ok(h) => {
            proof {
                reveal_strlit("$2b$12$");
                assert(h@.subrange(0, 7) =~= "$2b$12$"@);
            }
            Ok(h)
        },
        Err(e) => Err(AuthError::Hashing(bcrypt_error_text(&e))),
    }
}

/// Completes a signup once the new account has been stored and read back.
pub fn signup_complete(created: Option<User>, remember: Option<String>) -> (r: Result<
    SessionChange,
    AuthError,
>)
    ensures
        match created {
            Some(u) => r == Ok::<SessionChange, AuthError>(
                SessionChange::LogIn { user_id: u.id, remember: remember is Some },
            ),
            None => r == Err::<SessionChange, AuthError>(AuthError::SignupUserMissing),
        },
{
    match created {
        Some(u) => Ok(SessionChange::LogIn { user_id: u.id, remember: remember.is_some() }),
        None => Err(AuthError::SignupUserMissing),
    }
}

/// Handles a logout request.
pub fn logout() -> (r: SessionChange)
    ensures
        r == SessionChange::LogOut,
{
    SessionChange::LogOut
}

/// A password that signup accepted and hashed logs in the account that
/// stores that hash, remembered exactly when the login asks for it.
pub proof fn lemma_signup_password_logs_in(password: Seq<char>, user: User, remember: bool)
    requires
        hash_accepts(password, user.password_hash@),
    ensures
        login_outcome(Some(user), password, remember) == Some(
            Ok::<SessionChange, AuthError>(SessionChange::LogIn { user_id: user.id, remember }),
        ),
{
}

/// A wrong password never logs in: when bcrypt rejects it, login fails
/// with `PasswordDoesNotMatch`, and no login ever happens for a missing account.
pub proof fn lemma_login_needs_matching_password(
    user: Option<User>,
    password: Seq<char>,
    remember: bool,
)
    ensures
        user is None ==> login_outcome(user, password, remember) == Some(
            Err::<SessionChange, AuthError>(AuthError::UserDoesNotExist),
        ),
        (user matches Some(u) && bcrypt_verify_outcome(password, u.password_hash@) == Ok::<bool, Seq<char>>(false))
            ==> login_outcome(user, password, remember) == Some(
            Err::<SessionChange, AuthError>(AuthError::PasswordDoesNotMatch),
        ),
{
}

} // verus!
