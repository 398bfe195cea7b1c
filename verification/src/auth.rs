//! Who may do what: login tokens' contents, how requests present them, and
//! the rule that the station always keeps an administrator.
use vstd::prelude::*;
use crate::models::User;
use crate::text::{chars_of, is_prefix, str_eq, str_starts_with, string_from};

verus! {

#[verifier::external_type_specification]
#[verifier::external_body]
pub struct ExBcryptError(bcrypt::BcryptError);

/// What `bcrypt::verify` answers for `password` against a stored `hash`:
/// whether they match, or `None` when the hash cannot be read. It depends
/// on the two texts alone.
pub uninterp spec fn bcrypt_verifies(password: Seq<char>, hash: Seq<char>) -> Option<bool>;

/// `bcrypt::verify`: hashes `password` again with the cost and salt written
/// in `hash` and compares; it fails exactly when `hash` cannot be read.
#[verifier::external_body]
fn bcrypt_verify(password: &str, hash: &str) -> (r: Result<bool, bcrypt::BcryptError>)
    ensures
        match r {
            Ok(b) => bcrypt_verifies(password@, hash@) == Some(b),
            Err(_) => bcrypt_verifies(password@, hash@) is None,
        },
{
    bcrypt::verify(password, hash)
}

/// `bcrypt::hash` with `bcrypt::DEFAULT_COST` (12): a hash of `password`
/// under a fresh random salt, failing only when the system gives no random
/// bytes. The result is `$2b$12$`, the salt and the digest, 60 characters,
/// and it verifies against `password` (cost and salt are read back from it).
/// Which salt was drawn is not stated.
#[verifier::external_body]
fn bcrypt_hash(password: &str) -> (r: Result<String, bcrypt::BcryptError>)
    ensures
        r matches Ok(h) ==> h@.len() == 60 && h@.take(7) == "$2b$12$"@ && bcrypt_verifies(password@, h@) == Some(
            true,
        ),
{
    bcrypt::hash(password, bcrypt::DEFAULT_COST)
}

/// Why a password could not be hashed or checked.
#[derive(Debug, PartialEq, Eq, Structural)]
pub enum PasswordError {
    /// No random bytes for a salt.
    Hashing,
    /// The stored hash cannot be read.
    InvalidHash,
}

/// What checking `password` against a stored `hash` answers.
pub open spec fn password_check(password: Seq<char>, hash: Seq<char>) -> Result<bool, PasswordError> {
    match bcrypt_verifies(password, hash) {
        Some(b) => Ok(b),
        None => Err(PasswordError::InvalidHash),
    }
}

/// The hash stored for a new password: bcrypt at the default cost. Checking
/// the same password against what it returns succeeds.
pub fn hash_password(password: &str) -> (r: Result<String, PasswordError>)
    ensures
        r matches Ok(h) ==> h@.len() == 60 && h@.take(7) == "$2b$12$"@ && password_check(password@, h@) == Ok::<
            bool,
            PasswordError,
        >(true),
        r matches Err(e) ==> e == PasswordError::Hashing,
{
    match bcrypt_hash(password) {
        Ok(h) => Ok(h),
        Err(_) => Err(PasswordError::Hashing),
    }
}

/// Whether `password` matches the stored `hash`; an error when the hash
/// cannot be read.
pub fn verify_password(password: &str, hash: &str) -> (r: Result<bool, PasswordError>)
    ensures
        r == password_check(password@, hash@),
{
    match bcrypt_verify(password, hash) {
        Ok(b) => Ok(b),
        Err(_) => Err(PasswordError::InvalidHash),
    }
}

/// What a login token asserts.
pub struct Claims {
    /// The user name.
    pub sub: String,
    pub user_id: i32,
    pub role: String,
    /// Expiry, in seconds since the Unix epoch.
    pub exp: i64,
}

/// Instants that timestamps can represent, in seconds since the epoch
/// (about 262 000 years either way).
pub open spec fn representable_instant(t: int) -> bool {
    -8_210_266_876_800 <= t <= 8_210_266_876_799
}

/// The claims of a token issued at `now` (seconds since the epoch) that
/// lasts `expiration_hours`.
pub fn claims_for(user_id: i32, username: &str, role: &str, now: i64, expiration_hours: i64) -> (r: Claims)
    requires
        representable_instant(now as int),
        -2_562_047_788_015 <= expiration_hours <= 2_562_047_788_015,
        representable_instant(now + expiration_hours * 3600),
    ensures
        r.sub@ == username@,
        r.user_id == user_id,
        r.role@ == role@,
        r.exp == now + expiration_hours * 3600,
{
    Claims {
        sub: crate::text::owned(username),
        user_id,
        role: crate::text::owned(role),
        exp: now + expiration_hours * 3600,
    }
}

/// The token of an `Authorization: Bearer <token>` header.
pub open spec fn bearer_of(header: Seq<char>) -> Option<Seq<char>> {
    if is_prefix("Bearer "@, header) { Some(header.skip(7)) } else { None }
}

/// Takes the token out of an authorization header.
pub fn bearer_token(header: &str) -> (r: Option<String>)
    ensures
        crate::tts::opt_view(r) == bearer_of(header@),
{
    proof {
        reveal_strlit("Bearer ");
    }
    if !str_starts_with(header, "Bearer ") {
        return None;
    }
    let cs = chars_of(header);
    let mut out: Vec<char> = Vec::new();
    let mut i: usize = 7;
    while i < cs.len()
        invariant
            7 <= i <= cs@.len(),
            cs@ == header@,
            out@ == cs@.subrange(7, i as int),
        decreases cs@.len() - i,
    {
        out.push(cs[i]);
        i = i + 1;
        assert(out@ =~= cs@.subrange(7, i as int));
    }
    assert(out@ =~= header@.skip(7));
    Some(string_from(out.as_slice()))
}

/// Whether a request may read a node's schedule: it carries a valid user
/// token, or the node's own secret.
pub fn may_read_node_schedule(token_valid: bool, stored_secret: Option<&str>, presented_secret: Option<&str>) -> (b: bool)
    ensures
        b == (token_valid || (stored_secret matches Some(s) && presented_secret matches Some(p) && s@ == p@)),
{
    if token_valid {
        return true;
    }
    match (stored_secret, presented_secret) {
        (Some(s), Some(p)) => str_eq(s, p),
        _ => false,
    }
}

/// How many of `users` are administrators.
pub open spec fn admin_count(users: Seq<User>) -> nat
    decreases users.len(),
{
    if users.len() == 0 {
        0
    } else {
        admin_count(users.drop_last()) + if users.last().admin_role() { 1nat } else { 0nat }
    }
}

/// The first user with id `id`.
pub open spec fn user_with_id(users: Seq<User>, id: i32) -> Option<User>
    decreases users.len(),
{
    if users.len() == 0 {
        None
    } else {
        match user_with_id(users.drop_last(), id) {
            Some(u) => Some(u),
            None => if users.last().id == Some(id) { Some(users.last()) } else { None },
        }
    }
}

/// Whether removing the admin role from user `id` (by deletion or a new
/// role) is refused: it is when that user is the only administrator left.
pub open spec fn would_remove_last_admin(users: Seq<User>, id: i32) -> bool {
    user_with_id(users, id) matches Some(t) && t.admin_role() && admin_count(users) <= 1
}

fn count_admins(users: &[User]) -> (r: u64)
    requires
        users@.len() < u64::MAX,
    ensures
        r == admin_count(users@),
{
    let mut n: u64 = 0;
    let mut i: usize = 0;
    while i < users.len()
        invariant
            i <= users@.len(),
            users@.len() < u64::MAX,
            n == admin_count(users@.take(i as int)),
            n <= i,
        decreases users@.len() - i,
    {
        proof {
            assert(users@.take(i as int + 1).drop_last() =~= users@.take(i as int));
            assert(users@.take(i as int + 1).last() == users@[i as int]);
        }
        if users[i].is_admin() {
            n = n + 1;
        }
        i = i + 1;
    }
    assert(users@.take(users@.len() as int) =~= users@);
    n
}

fn find_user(users: &[User], id: i32) -> (r: Option<usize>)
    ensures
        match r {
            Some(i) => i < users@.len() && user_with_id(users@, id) == Some(users@[i as int]),
            None => user_with_id(users@, id) is None,
        },
{
    let mut i: usize = 0;
    while i < users.len()
        invariant
            i <= users@.len(),
            user_with_id(users@.take(i as int), id) is None,
        decreases users@.len() - i,
    {
        proof {
            assert(users@.take(i as int + 1).drop_last() =~= users@.take(i as int));
            assert(users@.take(i as int + 1).last() == users@[i as int]);
        }
        if users[i].id == Some(id) {
            proof {
                lemma_user_with_id_prefix(users@, id, i as int + 1);
            }
            return Some(i);
        }
        i = i + 1;
    }
    assert(users@.take(users@.len() as int) =~= users@);
    None
}

proof fn lemma_user_with_id_prefix(users: Seq<User>, id: i32, k: int)
    requires
        0 <= k <= users.len(),
        user_with_id(users.take(k), id) is Some,
    ensures
        user_with_id(users, id) == user_with_id(users.take(k), id),
    decreases users.len() - k,
{
    if k < users.len() {
        assert(users.take(k + 1).drop_last() =~= users.take(k));
        lemma_user_with_id_prefix(users, id, k + 1);
    } else {
        assert(users.take(k) =~= users);
    }
}

/// Whether an administrator's change of user `id` to `new_role` (if any) is
/// refused for taking away the last administrator.
pub fn role_change_refused(users: &[User], id: i32, new_role: Option<&str>) -> (b: bool)
    requires
        users@.len() < u64::MAX,
    ensures
        b == (new_role matches Some(r) && r@ != "admin"@ && would_remove_last_admin(users@, id)),
{
    match new_role {
        Some(r) => {
            if str_eq(r, "admin") {
                return false;
            }
            deletion_refused(users, id)
        },
        None => false,
    }
}

/// Whether an administrator's deletion of user `id` is refused for taking
/// away the last administrator.
pub fn deletion_refused(users: &[User], id: i32) -> (b: bool)
    requires
        users@.len() < u64::MAX,
    ensures
        b == would_remove_last_admin(users@, id),
{
    match find_user(users, id) {
        Some(i) => users[i].is_admin() && count_admins(users) <= 1,
        None => false,
    }
}

/// User ids are unique.
pub open spec fn distinct_ids(users: Seq<User>) -> bool {
    forall|i: int, j: int| 0 <= i < j < users.len() ==> (#[trigger] users[i]).id != (#[trigger] users[j]).id
}

/// Administrators left once user `id` is deleted.
pub open spec fn admins_after_delete(users: Seq<User>, id: i32) -> nat
    decreases users.len(),
{
    if users.len() == 0 {
        0
    } else {
        admins_after_delete(users.drop_last(), id) + if users.last().id == Some(id) {
            0nat
        } else if users.last().admin_role() {
            1nat
        } else {
            0nat
        }
    }
}

/// Administrators once user `id` is given role `r`.
pub open spec fn admins_after_role(users: Seq<User>, id: i32, r: Seq<char>) -> nat
    decreases users.len(),
{
    if users.len() == 0 {
        0
    } else {
        admins_after_role(users.drop_last(), id, r) + if users.last().id == Some(id) {
            if r == "admin"@ { 1nat } else { 0nat }
        } else if users.last().admin_role() {
            1nat
        } else {
            0nat
        }
    }
}

proof fn lemma_distinct_init(users: Seq<User>)
    requires
        distinct_ids(users),
        users.len() > 0,
    ensures
        distinct_ids(users.drop_last()),
        forall|k: int| 0 <= k < users.len() - 1 ==> (#[trigger] users[k]).id != users.last().id,
{
    assert forall|i: int, j: int| 0 <= i < j < users.drop_last().len() implies
        (#[trigger] users.drop_last()[i]).id != (#[trigger] users.drop_last()[j]).id by {
        assert(users.drop_last()[i] == users[i] && users.drop_last()[j] == users[j]);
    }
    assert forall|k: int| 0 <= k < users.len() - 1 implies (#[trigger] users[k]).id != users.last().id by {
        assert(users.last() == users[users.len() - 1]);
    }
}

proof fn lemma_no_user(users: Seq<User>, id: i32)
    requires
        forall|k: int| 0 <= k < users.len() ==> (#[trigger] users[k]).id != Some(id),
    ensures
        user_with_id(users, id) is None,
        admins_after_delete(users, id) == admin_count(users),
        forall|r: Seq<char>| #[trigger] admins_after_role(users, id, r) == admin_count(users),
    decreases users.len(),
{
    if users.len() > 0 {
        assert forall|k: int| 0 <= k < users.drop_last().len() implies (#[trigger] users.drop_last()[k]).id != Some(id) by {
            assert(users.drop_last()[k] == users[k]);
        }
        lemma_no_user(users.drop_last(), id);
        assert(users.last() == users[users.len() - 1]);
        assert forall|r: Seq<char>| #[trigger] admins_after_role(users, id, r) == admin_count(users) by {
            assert(admins_after_role(users.drop_last(), id, r) == admin_count(users.drop_last()));
        }
    }
}

proof fn lemma_counts(users: Seq<User>, id: i32, r: Seq<char>)
    requires
        distinct_ids(users),
    ensures
        admins_after_delete(users, id) + (if would_remove_admin(users, id) { 1int } else { 0int }) == admin_count(users),
        user_with_id(users, id) is None ==> admins_after_role(users, id, r) == admin_count(users),
        user_with_id(users, id) is Some ==> admins_after_role(users, id, r) == admins_after_delete(users, id) + (if r == "admin"@ { 1int } else { 0int }),
    decreases users.len(),
{
    if users.len() > 0 {
        let init = users.drop_last();
        lemma_distinct_init(users);
        lemma_counts(init, id, r);
        if users.last().id == Some(id) {
            assert forall|k: int| 0 <= k < init.len() implies (#[trigger] init[k]).id != Some(id) by {
                assert(init[k] == users[k]);
            }
            lemma_no_user(init, id);
        }
    }
}

/// User `id` exists and is an administrator.
pub open spec fn would_remove_admin(users: Seq<User>, id: i32) -> bool {
    user_with_id(users, id) matches Some(t) && t.admin_role()
}

/// The station keeps an administrator: when there is one and user ids are
/// unique, a deletion or a change of role that is not refused for removing
/// the last administrator leaves at least one administrator behind.
pub proof fn lemma_admin_remains(users: Seq<User>, id: i32, new_role: Seq<char>)
    requires
        distinct_ids(users),
        admin_count(users) >= 1,
    ensures
        !would_remove_last_admin(users, id) ==> admins_after_delete(users, id) >= 1,
        !(new_role != "admin"@ && would_remove_last_admin(users, id)) ==> admins_after_role(users, id, new_role) >= 1,
{
    lemma_counts(users, id, new_role);
}

/// Why a change to the user table was refused or failed.
#[derive(Debug, PartialEq, Eq, Structural)]
pub enum UserChangeError {
    /// Only administrators manage users.
    Forbidden,
    /// The change would leave the station without an administrator.
    LastAdmin,
    /// The new password could not be hashed.
    Hashing,
    /// No user has the id.
    NotFound,
}

/// A user as the table sees it: id, name, password hash, role.
pub open spec fn user_view(u: User) -> (Option<i32>, Seq<char>, Seq<char>, Seq<char>) {
    (u.id, u.username@, u.password_hash@, u.role@)
}

pub open spec fn table_view(t: Seq<User>) -> Seq<(Option<i32>, Seq<char>, Seq<char>, Seq<char>)> {
    t.map_values(|u: User| user_view(u))
}

pub open spec fn str_view(o: Option<&str>) -> Option<Seq<char>> {
    match o {
        Some(x) => Some(x@),
        None => None,
    }
}

pub open spec fn or_keep(new: Option<Seq<char>>, old: Seq<char>) -> Seq<char> {
    match new {
        Some(x) => x,
        None => old,
    }
}

/// The table with every row of user `id` given the name, hash and role that
/// are set.
pub open spec fn changed_table(
    t: Seq<(Option<i32>, Seq<char>, Seq<char>, Seq<char>)>,
    id: i32,
    name: Option<Seq<char>>,
    hash: Option<Seq<char>>,
    role: Option<Seq<char>>,
) -> Seq<(Option<i32>, Seq<char>, Seq<char>, Seq<char>)> {
    t.map_values(
        |v: (Option<i32>, Seq<char>, Seq<char>, Seq<char>)|
            if v.0 == Some(id) {
                (v.0, or_keep(name, v.1), or_keep(hash, v.2), or_keep(role, v.3))
            } else {
                v
            },
    )
}

/// The table without the rows of user `id`.
pub open spec fn without_user(t: Seq<(Option<i32>, Seq<char>, Seq<char>, Seq<char>)>, id: i32) -> Seq<
    (Option<i32>, Seq<char>, Seq<char>, Seq<char>),
>
    decreases t.len(),
{
    if t.len() == 0 {
        seq![]
    } else if t.last().0 == Some(id) {
        without_user(t.drop_last(), id)
    } else {
        without_user(t.drop_last(), id).push(t.last())
    }
}

fn owned_or(new: Option<&str>, old: &String) -> (r: String)
    ensures
        r@ == or_keep(str_view(new), old@),
{
    match new {
        Some(x) => crate::text::owned(x),
        None => crate::text::owned(old.as_str()),
    }
}

/// Gives every row of user `id` the name, hash and role that are set.
fn change_rows(users: &mut Vec<User>, id: i32, name: Option<&str>, hash: Option<&str>, role: Option<&str>)
    ensures
        table_view(final(users)@) == changed_table(table_view(old(users)@), id, str_view(name), str_view(hash), str_view(role)),
{
    let ghost want = changed_table(table_view(old(users)@), id, str_view(name), str_view(hash), str_view(role));
    let mut i: usize = 0;
    while i < users.len()
        invariant
            i <= users@.len(),
            users@.len() == old(users)@.len(),
            want == changed_table(table_view(old(users)@), id, str_view(name), str_view(hash), str_view(role)),
            forall|k: int| 0 <= k < i ==> user_view(#[trigger] users@[k]) == want[k],
            forall|k: int| i <= k < users@.len() ==> #[trigger] users@[k] == old(users)@[k],
        decreases users@.len() - i,
    {
        if users[i].id == Some(id) {
            let u = User {
                id: users[i].id,
                username: owned_or(name, &users[i].username),
                password_hash: owned_or(hash, &users[i].password_hash),
                role: owned_or(role, &users[i].role),
            };
            users.set(i, u);
        }
        i = i + 1;
    }
    assert(table_view(users@) =~= want);
}

proof fn lemma_count_changed(a: Seq<User>, b: Seq<User>, id: i32, role: Option<Seq<char>>)
    requires
        a.len() == b.len(),
        forall|k: int| 0 <= k < a.len() ==> (#[trigger] b[k]).id == a[k].id && b[k].role@ == (if a[k].id == Some(
            id,
        ) {
            or_keep(role, a[k].role@)
        } else {
            a[k].role@
        }),
    ensures
        admin_count(b) == match role {
            Some(r) => admins_after_role(a, id, r),
            None => admin_count(a),
        },
    decreases a.len(),
{
    if a.len() > 0 {
        assert forall|k: int| 0 <= k < a.drop_last().len() implies (#[trigger] b.drop_last()[k]).id
            == a.drop_last()[k].id && b.drop_last()[k].role@ == (if a.drop_last()[k].id == Some(id) {
            or_keep(role, a.drop_last()[k].role@)
        } else {
            a.drop_last()[k].role@
        }) by {
            assert(b.drop_last()[k] == b[k] && a.drop_last()[k] == a[k]);
        }
        lemma_count_changed(a.drop_last(), b.drop_last(), id, role);
        assert(b.last() == b[b.len() - 1] && a.last() == a[a.len() - 1]);
    }
}

/// Some row of the table has id `id`.
pub open spec fn has_user(users: Seq<User>, id: i32) -> bool {
    exists|k: int| 0 <= k < users.len() && (#[trigger] users[k]).id == Some(id)
}

fn has_row(users: &Vec<User>, id: i32) -> (b: bool)
    ensures
        b == has_user(users@, id),
{
    let mut i: usize = 0;
    while i < users.len()
        invariant
            i <= users@.len(),
            forall|k: int| 0 <= k < i ==> (#[trigger] users@[k]).id != Some(id),
        decreases users@.len() - i,
    {
        if users[i].id == Some(id) {
            assert(users@[i as int].id == Some(id));
            return true;
        }
        i = i + 1;
    }
    false
}

/// The administrators are those of `a` when `b` changes only names and
/// password hashes (ids and roles row by row as in `a`).
proof fn lemma_same_roles(a: Seq<User>, b: Seq<User>, id: i32, name: Option<Seq<char>>)
    requires
        table_view(b) == changed_table(table_view(a), id, name, None, None),
    ensures
        admin_count(b) == admin_count(a),
{
    assert(table_view(b).len() == b.len() && table_view(a).len() == a.len());
    assert(a.len() == b.len());
    assert forall|k: int| 0 <= k < a.len() implies (#[trigger] b[k]).id == a[k].id && b[k].role@ == (if a[k].id == Some(
        id,
    ) {
        or_keep(None, a[k].role@)
    } else {
        a[k].role@
    }) by {
        assert(table_view(b)[k] == changed_table(table_view(a), id, name, None, None)[k]);
        assert(table_view(a)[k] == user_view(a[k]));
        assert(table_view(b)[k] == user_view(b[k]));
    }
    lemma_count_changed(a, b, id, None);
}

/// A change of user `id` asked for by `caller`, applied to the table as the
/// dashboard does: refused unless the caller is an administrator, refused
/// when it takes the administrator role from the last administrator, else
/// the name is set, then the password's new hash (a failure to hash stops
/// there), then the role, on every row of that id; it then fails when no
/// user has that id. No change ever leaves the station without an
/// administrator.
pub fn update_user(
    caller: &User,
    users: &mut Vec<User>,
    id: i32,
    username: Option<&str>,
    password: Option<&str>,
    role: Option<&str>,
) -> (r: Result<(), UserChangeError>)
    requires
        old(users)@.len() < u64::MAX,
    ensures
        !caller.admin_role() ==> r == Err::<(), UserChangeError>(UserChangeError::Forbidden) && final(users)@
            == old(users)@,
        caller.admin_role() && (role matches Some(x) && x@ != "admin"@ && would_remove_last_admin(old(users)@, id))
            ==> r == Err::<(), UserChangeError>(UserChangeError::LastAdmin) && final(users)@ == old(users)@,
        caller.admin_role() && !(role matches Some(x) && x@ != "admin"@ && would_remove_last_admin(old(users)@, id))
            ==> match password {
            None => {
                &&& r == (if has_user(old(users)@, id) {
                    Ok::<(), UserChangeError>(())
                } else {
                    Err(UserChangeError::NotFound)
                })
                &&& table_view(final(users)@) == changed_table(
                    table_view(old(users)@),
                    id,
                    str_view(username),
                    None,
                    str_view(role),
                )
            },
            Some(p) => if r == Err::<(), UserChangeError>(UserChangeError::Hashing) {
                table_view(final(users)@) == changed_table(table_view(old(users)@), id, str_view(username), None, None)
            } else {
                &&& r == (if has_user(old(users)@, id) {
                    Ok::<(), UserChangeError>(())
                } else {
                    Err(UserChangeError::NotFound)
                })
                &&& exists|h: Seq<char>|
                    password_check(p@, h) == Ok::<bool, PasswordError>(true) && #[trigger] changed_table(
                        table_view(old(users)@),
                        id,
                        str_view(username),
                        Some(h),
                        str_view(role),
                    ) == table_view(final(users)@)
            },
        },
        distinct_ids(old(users)@) && admin_count(old(users)@) >= 1 ==> admin_count(final(users)@) >= 1,
{
    if !caller.is_admin() {
        return Err(UserChangeError::Forbidden);
    }
    if role_change_refused(users.as_slice(), id, role) {
        return Err(UserChangeError::LastAdmin);
    }
    let found = has_row(users, id);
    let ghost t0 = users@;
    change_rows(users, id, username, None, None);
    let ghost t1 = users@;
    let hash = match password {
        Some(p) => match hash_password(p) {
            Ok(h) => Some(h),
            Err(_) => {
                proof {
                    lemma_same_roles(t0, t1, id, str_view(username));
                }
                return Err(UserChangeError::Hashing);
            },
        },
        None => None,
    };
    let hash_ref: Option<&str> = match &hash {
        Some(h) => Some(h.as_str()),
        None => None,
    };
    change_rows(users, id, None, hash_ref, role);
    proof {
        let tv0 = table_view(t0);
        let want = changed_table(tv0, id, str_view(username), str_view(hash_ref), str_view(role));
        assert(table_view(users@) =~= want) by {
            assert forall|k: int| 0 <= k < want.len() implies table_view(users@)[k] == want[k] by {
                assert(table_view(t1)[k] == changed_table(tv0, id, str_view(username), None, None)[k]);
            }
        }
        assert forall|k: int| 0 <= k < t0.len() implies (#[trigger] users@[k]).id == t0[k].id && users@[k].role@
            == (if t0[k].id == Some(id) {
            or_keep(str_view(role), t0[k].role@)
        } else {
            t0[k].role@
        }) by {
            assert(table_view(users@)[k] == want[k]);
            assert(tv0[k] == user_view(t0[k]));
        }
        lemma_count_changed(t0, users@, id, str_view(role));
        if distinct_ids(t0) && admin_count(t0) >= 1 {
            match role {
                Some(x) => {
                    lemma_admin_remains(t0, id, x@);
                },
                None => {},
            }
        }
    }
    if !found {
        return Err(UserChangeError::NotFound);
    }
    Ok(())
}

/// Removes user `id`, asked for by `caller`: refused unless the caller is an
/// administrator, or when it would delete the last administrator; an id no
/// user has deletes nothing. No deletion ever leaves the station without an
/// administrator.
pub fn delete_user(caller: &User, users: &mut Vec<User>, id: i32) -> (r: Result<(), UserChangeError>)
    requires
        old(users)@.len() < u64::MAX,
    ensures
        !caller.admin_role() ==> r == Err::<(), UserChangeError>(UserChangeError::Forbidden) && final(users)@
            == old(users)@,
        caller.admin_role() && would_remove_last_admin(old(users)@, id) ==> r == Err::<(), UserChangeError>(
            UserChangeError::LastAdmin,
        ) && final(users)@ == old(users)@,
        caller.admin_role() && !would_remove_last_admin(old(users)@, id) ==> r is Ok && table_view(final(users)@)
            == without_user(table_view(old(users)@), id),
        distinct_ids(old(users)@) && admin_count(old(users)@) >= 1 ==> admin_count(final(users)@) >= 1,
{
    if !caller.is_admin() {
        return Err(UserChangeError::Forbidden);
    }
    if deletion_refused(users.as_slice(), id) {
        return Err(UserChangeError::LastAdmin);
    }
    let ghost t0 = users@;
    let mut kept: Vec<User> = Vec::new();
    let mut i: usize = 0;
    while i < users.len()
        invariant
            i <= users@.len(),
            users@ == t0,
            table_view(kept@) == without_user(table_view(t0.take(i as int)), id),
            admin_count(kept@) == admins_after_delete(t0.take(i as int), id),
        decreases users@.len() - i,
    {
        proof {
            let a = t0.take(i as int + 1);
            assert(a.drop_last() =~= t0.take(i as int));
            assert(a.last() == t0[i as int]);
            assert(table_view(a).drop_last() =~= table_view(t0.take(i as int)));
            assert(table_view(a).last() == user_view(t0[i as int]));
        }
        if users[i].id != Some(id) {
            let u = User {
                id: users[i].id,
                username: crate::text::owned(users[i].username.as_str()),
                password_hash: crate::text::owned(users[i].password_hash.as_str()),
                role: crate::text::owned(users[i].role.as_str()),
            };
            let ghost before = kept@;
            kept.push(u);
            proof {
                assert(kept@.drop_last() == before);
                assert(table_view(kept@) =~= table_view(before).push(user_view(t0[i as int])));
            }
        }
        i = i + 1;
    }
    proof {
        assert(t0.take(t0.len() as int) =~= t0);
        if distinct_ids(t0) && admin_count(t0) >= 1 {
            lemma_admin_remains(t0, id, seq![]);
        }
    }
    *users = kept;
    Ok(())
}

/// Some user is named `admin`.
pub open spec fn has_admin_named(users: Seq<User>) -> bool {
    exists|i: int| 0 <= i < users.len() && (#[trigger] users[i]).username@ == "admin"@
}

/// Seeds the default login of a new station, `admin` with password `admin`
/// and the administrator role, unless a user named `admin` exists: `Ok(true)`
/// when it was added (last, with no id yet), `Ok(false)` when there was one.
/// The seeded password checks as `admin`.
pub fn seed_admin(users: &mut Vec<User>) -> (r: Result<bool, PasswordError>)
    ensures
        has_admin_named(old(users)@) ==> r == Ok::<bool, PasswordError>(false) && final(users)@ == old(users)@,
        !has_admin_named(old(users)@) ==> match r {
            Ok(added) => {
                &&& added
                &&& final(users)@.len() == old(users)@.len() + 1
                &&& final(users)@.drop_last() == old(users)@
                &&& final(users)@.last().id is None
                &&& final(users)@.last().username@ == "admin"@
                &&& final(users)@.last().role@ == "admin"@
                &&& password_check("admin"@, final(users)@.last().password_hash@) == Ok::<bool, PasswordError>(true)
            },
            Err(e) => e == PasswordError::Hashing && final(users)@ == old(users)@,
        },
{
    let mut i: usize = 0;
    while i < users.len()
        invariant
            i <= users@.len(),
            forall|k: int| 0 <= k < i ==> (#[trigger] users@[k]).username@ != "admin"@,
        decreases users@.len() - i,
    {
        if str_eq(users[i].username.as_str(), "admin") {
            assert(users@[i as int].username@ == "admin"@);
            return Ok(false);
        }
        i = i + 1;
    }
    let password_hash = match hash_password("admin") {
        Ok(h) => h,
        Err(e) => {
            return Err(e);
        },
    };
    users.push(User {
        id: None,
        username: crate::text::owned("admin"),
        password_hash,
        role: crate::text::owned("admin"),
    });
    Ok(true)
}

} // verus!
