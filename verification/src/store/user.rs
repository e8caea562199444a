//! The accounts that may use the list, and their sessions.

use crate::db::{
    has_key, index_of_key, keys_up_to, lemma_index_of_key, lemma_push_row, next_id, position,
    unique_keys, DbError, Keyed,
};
use vstd::prelude::*;

verus! {

/// An account as it is stored. Times are nanoseconds since the Unix epoch.
pub struct User {
    pub id: i64,
    pub username: String,
    pub password_hash: String,
    pub created_at: i128,
    pub updated_at: i128,
}

impl Clone for User {
    fn clone(&self) -> (copy: User)
        ensures
            copy == *self,
    {
        User {
            id: self.id,
            username: self.username.clone(),
            password_hash: self.password_hash.clone(),
            created_at: self.created_at,
            updated_at: self.updated_at,
        }
    }
}

impl Keyed for User {
    open spec fn key(&self) -> i64 {
        self.id
    }

    fn id(&self) -> (id: i64) {
        self.id
    }

    fn copy(&self) -> (copy: Self) {
        self.clone()
    }
}

/// A session as it is stored: whose it is, the key it is found by, and when it
/// ends.
pub struct UserSession {
    pub user_id: i64,
    pub session_hash: String,
    pub expires_at: i128,
    pub created_at: i128,
}

/// The lookup of an account or a session could not be made.
#[derive(Debug, Clone, Copy, PartialEq, Eq, Structural)]
pub struct LookupFailed;

/// The tables of accounts and sessions. Ids are handed out in ascending order
/// from 1 and never again.
pub struct Accounts {
    pub users: Vec<User>,
    pub sessions: Vec<UserSession>,
    pub last_user_id: i64,
}

/// Some account has the name.
pub open spec fn has_name(users: Seq<User>, username: Seq<char>) -> bool {
    exists|i: int| 0 <= i < users.len() && (#[trigger] users[i]).username@ == username
}

/// The session has the key and has not ended at `now`.
pub open spec fn live(session: UserSession, session_hash: Seq<char>, now: i128) -> bool {
    session.session_hash@ == session_hash && session.expires_at > now
}

/// The index of the first session with the key that has not ended, if there is one.
pub open spec fn first_live(sessions: Seq<UserSession>, session_hash: Seq<char>, now: i128) -> Option<
    int,
>
    decreases sessions.len(),
{
    if sessions.len() == 0 {
        None
    } else {
        match first_live(sessions.drop_last(), session_hash, now) {
            Some(at) => Some(at),
            None => if live(sessions.last(), session_hash, now) {
                Some(sessions.len() - 1)
            } else {
                None
            },
        }
    }
}

/// What `first_live` is: an index of a live session before which none is live,
/// or nothing where no session is live.
pub proof fn lemma_first_live(sessions: Seq<UserSession>, session_hash: Seq<char>, now: i128)
    ensures
        match first_live(sessions, session_hash, now) {
            Some(at) => 0 <= at < sessions.len() && live(sessions[at], session_hash, now)
                && forall|i: int| 0 <= i < at ==> !live(#[trigger] sessions[i], session_hash, now),
            None => forall|i: int|
                0 <= i < sessions.len() ==> !live(#[trigger] sessions[i], session_hash, now),
        },
    decreases sessions.len(),
{
    if sessions.len() > 0 {
        let front = sessions.drop_last();
        lemma_first_live(front, session_hash, now);
        assert forall|i: int| 0 <= i < front.len() implies front[i] == sessions[i] by {}
        match first_live(front, session_hash, now) {
            Some(at) => {
                assert(sessions[at] == front[at]);
                assert forall|i: int| 0 <= i < at implies !live(
                    #[trigger] sessions[i],
                    session_hash,
                    now,
                ) by {
                    assert(sessions[i] == front[i]);
                }
            },
            None => {
                assert forall|i: int| 0 <= i < sessions.len() - 1 implies !live(
                    #[trigger] sessions[i],
                    session_hash,
                    now,
                ) by {
                    assert(sessions[i] == front[i]);
                }
            },
        }
    }
}

/// The predicate "a session with another key".
pub open spec fn other_session(session_hash: Seq<char>) -> spec_fn(UserSession) -> bool {
    |session: UserSession| session.session_hash@ != session_hash
}

impl Accounts {
    /// The tables are consistent: ids and names of accounts are unique, the
    /// ids were handed out, and every session is that of an account.
    pub open spec fn wf(&self) -> bool {
        &&& unique_keys(self.users@)
        &&& 0 <= self.last_user_id
        &&& keys_up_to(self.users@, self.last_user_id)
        &&& forall|i: int, j: int|
            #![trigger self.users@[i], self.users@[j]]
            0 <= i < j < self.users@.len() ==> self.users@[i].username@ != self.users@[j].username@
        &&& forall|i: int|
            0 <= i < self.sessions@.len() ==> has_key(
                self.users@,
                (#[trigger] self.sessions@[i]).user_id,
            )
    }

    /// Empty tables.
    pub fn new() -> (accounts: Accounts)
        ensures
            accounts.wf(),
            accounts.users@.len() == 0,
            accounts.sessions@.len() == 0,
            accounts.last_user_id == 0,
    {
        Accounts { users: Vec::new(), sessions: Vec::new(), last_user_id: 0 }
    }
}

/// The index of the account with the name.
fn position_of_name(users: &Vec<User>, username: &str) -> (found: Option<usize>)
    ensures
        found is None <==> !has_name(users@, username@),
        found matches Some(at) ==> at < users@.len() && users@[at as int].username@ == username@,
{
    let wanted = username.to_owned();
    let mut at: usize = 0;
    while at < users.len()
        invariant
            at <= users.len(),
            wanted@ == username@,
            forall|i: int| 0 <= i < at ==> (#[trigger] users@[i]).username@ != username@,
        decreases users.len() - at,
    {
        if users[at].username == wanted {
            return Some(at);
        }
        at += 1;
    }
    None
}

/// Adds an account. A name that is taken is refused.
pub fn create_user(accounts: &mut Accounts, username: &str, password_hash: &str, now: i128) -> (created:
    Result<(), DbError>)
    requires
        old(accounts).wf(),
    ensures
        final(accounts).wf(),
        created is Err ==> *final(accounts) == *old(accounts),
        created == Err::<(), DbError>(DbError::Constraint) <==> has_name(
            old(accounts).users@,
            username@,
        ),
        created == Err::<(), DbError>(DbError::OutOfRange) <==> !has_name(
            old(accounts).users@,
            username@,
        ) && old(accounts).last_user_id == i64::MAX,
        created is Err ==> created->Err_0 != DbError::RowNotFound,
        created is Ok ==> {
            let user = final(accounts).users@.last();
            &&& final(accounts).users@ == old(accounts).users@.push(user)
            &&& user.id == old(accounts).last_user_id + 1
            &&& user.username@ == username@
            &&& user.password_hash@ == password_hash@
            &&& user.created_at == now
            &&& user.updated_at == now
            &&& final(accounts).last_user_id == user.id
            &&& final(accounts).sessions == old(accounts).sessions
        },
{
    if position_of_name(&accounts.users, username).is_some() {
        return Err(DbError::Constraint);
    }
    let id = match next_id(accounts.last_user_id) {
        Ok(id) => id,
        Err(error) => {
            return Err(error);
        },
    };
    let user = User {
        id,
        username: username.to_owned(),
        password_hash: password_hash.to_owned(),
        created_at: now,
        updated_at: now,
    };
    proof {
        lemma_push_row(accounts.users@, user, accounts.last_user_id);
        let more = accounts.users@.push(user);
        assert forall|i: int, j: int|
            #![trigger more[i], more[j]]
            0 <= i < j < more.len() implies more[i].username@ != more[j].username@ by {
            if j < accounts.users@.len() {
                assert(more[i] == accounts.users@[i] && more[j] == accounts.users@[j]);
            } else {
                assert(more[i] == accounts.users@[i]);
            }
        }
    }
    accounts.users.push(user);
    accounts.last_user_id = id;
    Ok(())
}

/// The account with the name, if there is one.
pub fn get_user(accounts: &Accounts, username: &str) -> (user: Option<User>)
    ensures
        user is None <==> !has_name(accounts.users@, username@),
        user matches Some(found) ==> found.username@ == username@ && accounts.users@.contains(found),
{
    match position_of_name(&accounts.users, username) {
        Some(at) => Some(accounts.users[at].clone()),
        None => None,
    }
}

/// Stores a session of the account. An account that does not exist has none.
pub fn create_session(
    accounts: &mut Accounts,
    user_id: i64,
    session_hash: &str,
    expires_at: i128,
    now: i128,
) -> (created: Result<(), DbError>)
    requires
        old(accounts).wf(),
    ensures
        final(accounts).wf(),
        !has_key(old(accounts).users@, user_id) ==> created == Err::<(), DbError>(
            DbError::Constraint,
        ) && *final(accounts) == *old(accounts),
        has_key(old(accounts).users@, user_id) ==> created is Ok && {
            let session = final(accounts).sessions@.last();
            &&& final(accounts).sessions@ == old(accounts).sessions@.push(session)
            &&& session.user_id == user_id
            &&& session.session_hash@ == session_hash@
            &&& session.expires_at == expires_at
            &&& session.created_at == now
            &&& final(accounts).users == old(accounts).users
            &&& final(accounts).last_user_id == old(accounts).last_user_id
        },
{
    if position(&accounts.users, user_id).is_none() {
        return Err(DbError::Constraint);
    }
    let session = UserSession {
        user_id,
        session_hash: session_hash.to_owned(),
        expires_at,
        created_at: now,
    };
    proof {
        let more = accounts.sessions@.push(session);
        assert forall|i: int| 0 <= i < more.len() implies has_key(
            accounts.users@,
            (#[trigger] more[i]).user_id,
        ) by {
            if i < accounts.sessions@.len() {
                assert(more[i] == accounts.sessions@[i]);
            }
        }
    }
    accounts.sessions.push(session);
    Ok(())
}

/// The account of the first session with the key that has not ended at `now`.
pub fn get_session(accounts: &Accounts, session_hash: &str, now: i128) -> (user: Option<User>)
    requires
        accounts.wf(),
    ensures
        match first_live(accounts.sessions@, session_hash@, now) {
            Some(at) => user == Some(
                accounts.users@[index_of_key(accounts.users@, accounts.sessions@[at].user_id)],
            ),
            None => user is None,
        },
{
    let wanted = session_hash.to_owned();
    let mut at: usize = 0;
    while at < accounts.sessions.len()
        invariant
            at <= accounts.sessions.len(),
            accounts.wf(),
            wanted@ == session_hash@,
            forall|i: int|
                0 <= i < at ==> !live(#[trigger] accounts.sessions@[i], session_hash@, now),
        decreases accounts.sessions.len() - at,
    {
        let session = &accounts.sessions[at];
        if session.session_hash == wanted && session.expires_at > now {
            proof {
                lemma_first_live(accounts.sessions@, session_hash@, now);
                assert(live(accounts.sessions@[at as int], session_hash@, now));
            }
            let owner = position(&accounts.users, session.user_id).unwrap();
            proof {
                lemma_index_of_key(accounts.users@, owner as int);
            }
            return Some(accounts.users[owner].clone());
        }
        at += 1;
    }
    proof {
        lemma_first_live(accounts.sessions@, session_hash@, now);
    }
    None
}

/// Removes the sessions with the key.
pub fn delete_session(accounts: &mut Accounts, session_hash: &str)
    requires
        old(accounts).wf(),
    ensures
        final(accounts).wf(),
        final(accounts).sessions@ == old(accounts).sessions@.filter(other_session(session_hash@)),
        final(accounts).users == old(accounts).users,
        final(accounts).last_user_id == old(accounts).last_user_id,
{
    broadcast use vstd::seq_lib::group_filter_ensures;

    let wanted = session_hash.to_owned();
    let mut kept: Vec<UserSession> = Vec::new();
    let mut at: usize = 0;
    proof {
        assert(accounts.sessions@.take(0) =~= Seq::<UserSession>::empty());
        reveal(Seq::filter);
    }
    while at < accounts.sessions.len()
        invariant
            at <= accounts.sessions.len(),
            wanted@ == session_hash@,
            kept@ == accounts.sessions@.take(at as int).filter(other_session(session_hash@)),
        decreases accounts.sessions.len() - at,
    {
        proof {
            assert(accounts.sessions@.take(at + 1) =~= accounts.sessions@.take(at as int).push(
                accounts.sessions@[at as int],
            ));
            accounts.sessions@.take(at as int).lemma_filter_push(
                accounts.sessions@[at as int],
                other_session(session_hash@),
            );
        }
        let session = &accounts.sessions[at];
        if session.session_hash != wanted {
            kept.push(
                UserSession {
                    user_id: session.user_id,
                    session_hash: session.session_hash.clone(),
                    expires_at: session.expires_at,
                    created_at: session.created_at,
                },
            );
        }
        at += 1;
    }
    proof {
        assert(accounts.sessions@.take(at as int) =~= accounts.sessions@);
        assert forall|i: int| 0 <= i < kept@.len() implies has_key(
            accounts.users@,
            (#[trigger] kept@[i]).user_id,
        ) by {
            assert(kept@.contains(kept@[i]));
            accounts.sessions@.lemma_filter_contains_rev(other_session(session_hash@), kept@[i]);
            let w = choose|w: int|
                0 <= w < accounts.sessions@.len() && accounts.sessions@[w] == kept@[i];
            assert(has_key(accounts.users@, accounts.sessions@[w].user_id));
        }
    }
    accounts.sessions = kept;
}

} // verus!
