//! The credential store: persisted user records and refresh-token
//! records, modelled as an in-memory structure with exact contracts.
//! User identifiers and email addresses are unique; deleting a user
//! also deletes that user's refresh-token records.

use vstd::prelude::*;
use vstd::pervasive::VecAdditionalExecFns;
use crate::codec::str_eq;
use crate::errors::MyError;

verus! {

/// A stored user: identity, unique email, and the password digest.
#[derive(Debug)]
pub struct UserRecord {
    pub id: u128,
    pub username: String,
    pub email: String,
    pub password_digest: String,
}

impl UserRecord {
    /// A field-for-field copy.
    pub fn duplicate(&self) -> (r: UserRecord)
        ensures
            r == *self,
    {
        UserRecord {
            id: self.id,
            username: self.username.clone(),
            email: self.email.clone(),
            password_digest: self.password_digest.clone(),
        }
    }
}

/// A persisted refresh token: the signed token text plus its envelope,
/// and whether it has been revoked.
#[derive(Debug)]
pub struct RefreshRecord {
    pub id: u128,
    pub user_id: u128,
    pub token: String,
    pub issued_at: i64,
    pub expires_at: i64,
    pub issuer: String,
    pub audience: String,
    pub revoked: bool,
}

impl RefreshRecord {
    /// A field-for-field copy.
    pub fn duplicate(&self) -> (r: RefreshRecord)
        ensures
            r == *self,
    {
        RefreshRecord {
            id: self.id,
            user_id: self.user_id,
            token: self.token.clone(),
            issued_at: self.issued_at,
            expires_at: self.expires_at,
            issuer: self.issuer.clone(),
            audience: self.audience.clone(),
            revoked: self.revoked,
        }
    }
}

/// The first user with a given id, scanning front to back.
pub open spec fn spec_user_by_id(s: Seq<UserRecord>, id: u128) -> Option<UserRecord>
    decreases s.len(),
{
    if s.len() == 0 {
        None
    } else if s[0].id == id {
        Some(s[0])
    } else {
        spec_user_by_id(s.drop_first(), id)
    }
}

/// The first user with a given email, scanning front to back.
pub open spec fn spec_user_by_email(s: Seq<UserRecord>, email: Seq<char>) -> Option<UserRecord>
    decreases s.len(),
{
    if s.len() == 0 {
        None
    } else if s[0].email@ == email {
        Some(s[0])
    } else {
        spec_user_by_email(s.drop_first(), email)
    }
}

/// Whether some not-yet-revoked record carries this token text.
pub open spec fn spec_has_active_token(s: Seq<RefreshRecord>, token: Seq<char>) -> bool {
    exists|i: int| #![auto] 0 <= i < s.len() && s[i].token@ == token && !s[i].revoked
}

/// Every record carrying this token text, marked revoked.
pub open spec fn spec_revoke_token(s: Seq<RefreshRecord>, token: Seq<char>) -> Seq<RefreshRecord> {
    s.map(
        |i: int, r: RefreshRecord|
            if r.token@ == token {
                RefreshRecord {
                    id: r.id,
                    user_id: r.user_id,
                    token: r.token,
                    issued_at: r.issued_at,
                    expires_at: r.expires_at,
                    issuer: r.issuer,
                    audience: r.audience,
                    revoked: true,
                }
            } else {
                r
            },
    )
}

/// The users that remain when one id is deleted.
pub open spec fn spec_remove_user(s: Seq<UserRecord>, id: u128) -> Seq<UserRecord>
    decreases s.len(),
{
    if s.len() == 0 {
        Seq::empty()
    } else if s[0].id == id {
        spec_remove_user(s.drop_first(), id)
    } else {
        seq![s[0]] + spec_remove_user(s.drop_first(), id)
    }
}

/// The refresh records that remain when one user is deleted.
pub open spec fn spec_remove_user_tokens(s: Seq<RefreshRecord>, id: u128) -> Seq<RefreshRecord>
    decreases s.len(),
{
    if s.len() == 0 {
        Seq::empty()
    } else if s[0].user_id == id {
        spec_remove_user_tokens(s.drop_first(), id)
    } else {
        seq![s[0]] + spec_remove_user_tokens(s.drop_first(), id)
    }
}

/// No user carries the id exactly when the lookup returns nothing.
pub proof fn lemma_user_by_id_none(s: Seq<UserRecord>, id: u128)
    ensures
        spec_user_by_id(s, id) is None <==> (forall|i: int|
            0 <= i < s.len() ==> #[trigger] s[i].id != id),
    decreases s.len(),
{
    if s.len() > 0 {
        lemma_user_by_id_none(s.drop_first(), id);
        assert forall|i: int| 1 <= i < s.len() implies s.drop_first()[i - 1] == s[i] by {}
    }
}

/// No user carries the email exactly when the lookup returns nothing.
pub proof fn lemma_user_by_email_none(s: Seq<UserRecord>, email: Seq<char>)
    ensures
        spec_user_by_email(s, email) is None <==> (forall|i: int|
            0 <= i < s.len() ==> #[trigger] s[i].email@ != email),
    decreases s.len(),
{
    if s.len() > 0 {
        lemma_user_by_email_none(s.drop_first(), email);
        assert forall|i: int| 1 <= i < s.len() implies s.drop_first()[i - 1] == s[i] by {}
    }
}

/// Everything that survives a user deletion was there before, and does
/// not carry the deleted id.
proof fn lemma_remove_user_elems(s: Seq<UserRecord>, id: u128)
    ensures
        forall|k: int| #![auto]
            0 <= k < spec_remove_user(s, id).len() ==> spec_remove_user(s, id)[k].id != id && (
            exists|m: int| 0 <= m < s.len() && #[trigger] s[m] == spec_remove_user(s, id)[k]),
    decreases s.len(),
{
    if s.len() > 0 {
        lemma_remove_user_elems(s.drop_first(), id);
        let rest = spec_remove_user(s.drop_first(), id);
        assert forall|k: int| #![auto]
            0 <= k < spec_remove_user(s, id).len() implies spec_remove_user(s, id)[k].id != id && (
        exists|m: int| 0 <= m < s.len() && #[trigger] s[m] == spec_remove_user(s, id)[k]) by {
            if s[0].id == id {
                assert(spec_remove_user(s, id)[k] == rest[k]);
                let m0 = choose|m: int| 0 <= m < s.drop_first().len() && #[trigger] s.drop_first()[m]
                    == rest[k];
                assert(s[m0 + 1] == s.drop_first()[m0]);
            } else {
                if k == 0 {
                    assert(spec_remove_user(s, id)[0] == s[0]);
                } else {
                    assert(spec_remove_user(s, id)[k] == rest[k - 1]);
                    let m0 = choose|m: int| 0 <= m < s.drop_first().len()
                        && #[trigger] s.drop_first()[m] == rest[k - 1];
                    assert(s[m0 + 1] == s.drop_first()[m0]);
                }
            }
        }
    }
}

/// The credential store.
pub struct CredentialStore {
    pub users: Vec<UserRecord>,
    pub refresh_records: Vec<RefreshRecord>,
}

impl CredentialStore {
    /// Well-formed: user ids and emails are unique.
    pub open spec fn wf(&self) -> bool {
        &&& forall|i: int, j: int|
            0 <= i < j < self.users@.len() ==> #[trigger] self.users@[i].id
                != #[trigger] self.users@[j].id
        &&& forall|i: int, j: int|
            0 <= i < j < self.users@.len() ==> #[trigger] self.users@[i].email@
                != #[trigger] self.users@[j].email@
    }

    /// An empty store.
    pub fn new() -> (r: CredentialStore)
        ensures
            r.wf(),
            r.users@.len() == 0,
            r.refresh_records@.len() == 0,
    {
        CredentialStore { users: Vec::new(), refresh_records: Vec::new() }
    }

    /// Look a user up by id.
    pub fn find_user_by_id(&self, id: u128) -> (r: Option<UserRecord>)
        ensures
            r == spec_user_by_id(self.users@, id),
    {
        let mut i: usize = 0;
        proof {
            assert(self.users@.skip(0) =~= self.users@);
        }
        while i < self.users.len()
            invariant
                i <= self.users@.len(),
                spec_user_by_id(self.users@, id) == spec_user_by_id(
                    self.users@.skip(i as int),
                    id,
                ),
            decreases self.users@.len() - i,
        {
            proof {
                assert(self.users@.skip(i as int)[0] == self.users@[i as int]);
                assert(self.users@.skip(i as int).drop_first() =~= self.users@.skip(i as int + 1));
            }
            if self.users[i].id == id {
                return Some(self.users[i].duplicate());
            }
            i = i + 1;
        }
        None
    }

    /// Look a user up by email.
    pub fn find_user_by_email(&self, email: &str) -> (r: Option<UserRecord>)
        ensures
            r == spec_user_by_email(self.users@, email@),
    {
        let mut i: usize = 0;
        proof {
            assert(self.users@.skip(0) =~= self.users@);
        }
        while i < self.users.len()
            invariant
                i <= self.users@.len(),
                spec_user_by_email(self.users@, email@) == spec_user_by_email(
                    self.users@.skip(i as int),
                    email@,
                ),
            decreases self.users@.len() - i,
        {
            proof {
                assert(self.users@.skip(i as int)[0] == self.users@[i as int]);
                assert(self.users@.skip(i as int).drop_first() =~= self.users@.skip(i as int + 1));
            }
            if str_eq(self.users[i].email.as_str(), email) {
                return Some(self.users[i].duplicate());
            }
            i = i + 1;
        }
        None
    }

    /// Insert a user; refused when the id or the email is taken.
    pub fn insert_user(&mut self, u: UserRecord) -> (r: Result<(), MyError>)
        requires
            old(self).wf(),
        ensures
            final(self).wf(),
            match r {
                Ok(()) => spec_user_by_id(old(self).users@, u.id) is None && spec_user_by_email(
                    old(self).users@,
                    u.email@,
                ) is None && final(self).users@ == old(self).users@.push(u)
                    && final(self).refresh_records == old(self).refresh_records,
                Err(e) => e == MyError::StoreFailure && *final(self) == *old(self) && (
                spec_user_by_id(old(self).users@, u.id) is Some || spec_user_by_email(
                    old(self).users@,
                    u.email@,
                ) is Some),
            },
    {
        match self.find_user_by_id(u.id) {
            Some(_) => {
                return Err(MyError::StoreFailure);
            },
            None => {},
        }
        match self.find_user_by_email(u.email.as_str()) {
            Some(_) => {
                return Err(MyError::StoreFailure);
            },
            None => {},
        }
        proof {
            lemma_user_by_id_none(self.users@, u.id);
            lemma_user_by_email_none(self.users@, u.email@);
        }
        let ghost olds = self.users@;
        self.users.push(u);
        proof {
            assert forall|i: int, j: int|
                0 <= i < j < self.users@.len() implies #[trigger] self.users@[i].id
                != #[trigger] self.users@[j].id by {
                if j < olds.len() {
                } else {
                    assert(self.users@[i] == olds[i]);
                }
            }
            assert forall|i: int, j: int|
                0 <= i < j < self.users@.len() implies #[trigger] self.users@[i].email@
                != #[trigger] self.users@[j].email@ by {
                if j < olds.len() {
                } else {
                    assert(self.users@[i] == olds[i]);
                }
            }
        }
        Ok(())
    }

    /// Persist a refresh record.
    pub fn insert_refresh_record(&mut self, rec: RefreshRecord)
        ensures
            final(self).users == old(self).users,
            final(self).refresh_records@ == old(self).refresh_records@.push(rec),
            old(self).wf() ==> final(self).wf(),
    {
        self.refresh_records.push(rec);
    }

    /// Whether some active (not revoked) record carries this token.
    pub fn has_active_token(&self, token: &str) -> (r: bool)
        ensures
            r == spec_has_active_token(self.refresh_records@, token@),
    {
        let mut i: usize = 0;
        while i < self.refresh_records.len()
            invariant
                i <= self.refresh_records@.len(),
                forall|j: int| #![auto]
                    0 <= j < i ==> !(self.refresh_records@[j].token@ == token@
                        && !self.refresh_records@[j].revoked),
            decreases self.refresh_records@.len() - i,
        {
            if !self.refresh_records[i].revoked && str_eq(
                self.refresh_records[i].token.as_str(),
                token,
            ) {
                return true;
            }
            i = i + 1;
        }
        false
    }

    /// Mark every record carrying this token as revoked.
    pub fn revoke_token(&mut self, token: &str)
        ensures
            final(self).users == old(self).users,
            final(self).refresh_records@ == spec_revoke_token(old(self).refresh_records@, token@),
            old(self).wf() ==> final(self).wf(),
    {
        let ghost orig = self.refresh_records@;
        let mut i: usize = 0;
        while i < self.refresh_records.len()
            invariant
                i <= self.refresh_records@.len(),
                self.refresh_records@.len() == orig.len(),
                self.users == old(self).users,
                forall|j: int|
                    0 <= j < i ==> #[trigger] self.refresh_records@[j] == spec_revoke_token(
                        orig,
                        token@,
                    )[j],
                forall|j: int|
                    i <= j < orig.len() ==> #[trigger] self.refresh_records@[j] == orig[j],
            decreases self.refresh_records@.len() - i,
        {
            if str_eq(self.refresh_records[i].token.as_str(), token) {
                let mut r = self.refresh_records[i].duplicate();
                r.revoked = true;
                self.refresh_records.set(i, r);
            }
            i = i + 1;
        }
        proof {
            assert(self.refresh_records@ =~= spec_revoke_token(orig, token@));
        }
    }

    /// Revoke one refresh record by its id.
    pub fn revoke_refresh_record(&mut self, id: u128)
        ensures
            final(self).users == old(self).users,
            final(self).refresh_records@.len() == old(self).refresh_records@.len(),
            forall|j: int| #![auto]
                0 <= j < old(self).refresh_records@.len() ==> final(self).refresh_records@[j] == (
                if old(self).refresh_records@[j].id == id {
                    RefreshRecord {
                        revoked: true,
                        ..old(self).refresh_records@[j]
                    }
                } else {
                    old(self).refresh_records@[j]
                }),
            old(self).wf() ==> final(self).wf(),
    {
        let ghost orig = self.refresh_records@;
        let mut i: usize = 0;
        while i < self.refresh_records.len()
            invariant
                i <= self.refresh_records@.len(),
                self.refresh_records@.len() == orig.len(),
                self.users == old(self).users,
                forall|j: int| #![auto]
                    0 <= j < i ==> self.refresh_records@[j] == (if orig[j].id == id {
                        RefreshRecord { revoked: true, ..orig[j] }
                    } else {
                        orig[j]
                    }),
                forall|j: int|
                    i <= j < orig.len() ==> #[trigger] self.refresh_records@[j] == orig[j],
            decreases self.refresh_records@.len() - i,
        {
            if self.refresh_records[i].id == id {
                let mut r = self.refresh_records[i].duplicate();
                r.revoked = true;
                self.refresh_records.set(i, r);
            }
            i = i + 1;
        }
    }

    /// Delete a user and, with it, that user's refresh records.
    pub fn delete_user(&mut self, id: u128) -> (r: Result<(), MyError>)
        requires
            old(self).wf(),
        ensures
            r is Ok,
            final(self).wf(),
            final(self).users@ == spec_remove_user(old(self).users@, id),
            final(self).refresh_records@ == spec_remove_user_tokens(
                old(self).refresh_records@,
                id,
            ),
    {
        let ghost origu = self.users@;
        let ghost origr = self.refresh_records@;
        let mut kept_users: Vec<UserRecord> = Vec::new();
        let mut i: usize = 0;
        proof {
            assert(origu.skip(0) =~= origu);
        }
        while i < self.users.len()
            invariant
                i <= self.users@.len(),
                self.users@ == origu,
                kept_users@ + spec_remove_user(origu.skip(i as int), id) == spec_remove_user(
                    origu,
                    id,
                ),
            decreases self.users@.len() - i,
        {
            proof {
                assert(origu.skip(i as int)[0] == origu[i as int]);
                assert(origu.skip(i as int).drop_first() =~= origu.skip(i as int + 1));
            }
            if self.users[i].id != id {
                kept_users.push(self.users[i].duplicate());
                proof {
                    assert(kept_users@ + spec_remove_user(origu.skip(i as int + 1), id)
                        =~= spec_remove_user(origu, id));
                }
            }
            i = i + 1;
        }
        proof {
            assert(origu.skip(origu.len() as int) =~= Seq::<UserRecord>::empty());
            assert(kept_users@ =~= spec_remove_user(origu, id));
        }
        self.users = kept_users;
        let mut kept_recs: Vec<RefreshRecord> = Vec::new();
        let mut k: usize = 0;
        proof {
            assert(origr.skip(0) =~= origr);
        }
        while k < self.refresh_records.len()
            invariant
                k <= self.refresh_records@.len(),
                self.refresh_records@ == origr,
                kept_recs@ + spec_remove_user_tokens(origr.skip(k as int), id)
                    == spec_remove_user_tokens(origr, id),
            decreases self.refresh_records@.len() - k,
        {
            proof {
                assert(origr.skip(k as int)[0] == origr[k as int]);
                assert(origr.skip(k as int).drop_first() =~= origr.skip(k as int + 1));
            }
            if self.refresh_records[k].user_id != id {
                kept_recs.push(self.refresh_records[k].duplicate());
                proof {
                    assert(kept_recs@ + spec_remove_user_tokens(origr.skip(k as int + 1), id)
                        =~= spec_remove_user_tokens(origr, id));
                }
            }
            k = k + 1;
        }
        proof {
            assert(origr.skip(origr.len() as int) =~= Seq::<RefreshRecord>::empty());
            assert(kept_recs@ =~= spec_remove_user_tokens(origr, id));
        }
        self.refresh_records = kept_recs;
        proof {
            lemma_remove_user_elems(origu, id);
            let news = spec_remove_user(origu, id);
            assert forall|a: int, b: int|
                0 <= a < b < news.len() implies #[trigger] news[a].id != #[trigger] news[b].id
                && news[a].email@ != news[b].email@ by {
                let ma = choose|m: int| 0 <= m < origu.len() && #[trigger] origu[m] == news[a];
                let mb = choose|m: int| 0 <= m < origu.len() && #[trigger] origu[m] == news[b];
                lemma_remove_user_distinct_sources(origu, id, a, b);
            }
        }
        Ok(())
    }
}

/// Two positions of the remainder come from two different positions of
/// the original, in order.
proof fn lemma_remove_user_distinct_sources(s: Seq<UserRecord>, id: u128, a: int, b: int)
    requires
        0 <= a < b < spec_remove_user(s, id).len(),
        forall|i: int, j: int| 0 <= i < j < s.len() ==> #[trigger] s[i].id != #[trigger] s[j].id,
        forall|i: int, j: int|
            0 <= i < j < s.len() ==> #[trigger] s[i].email@ != #[trigger] s[j].email@,
    ensures
        spec_remove_user(s, id)[a].id != spec_remove_user(s, id)[b].id,
        spec_remove_user(s, id)[a].email@ != spec_remove_user(s, id)[b].email@,
    decreases s.len(),
{
    let rem = spec_remove_user(s, id);
    if s.len() > 0 {
        let rest = s.drop_first();
        assert forall|i: int, j: int|
            0 <= i < j < rest.len() implies #[trigger] rest[i].id != #[trigger] rest[j].id by {
            assert(rest[i] == s[i + 1] && rest[j] == s[j + 1]);
        }
        assert forall|i: int, j: int|
            0 <= i < j < rest.len() implies #[trigger] rest[i].email@
            != #[trigger] rest[j].email@ by {
            assert(rest[i] == s[i + 1] && rest[j] == s[j + 1]);
        }
        if s[0].id == id {
            lemma_remove_user_distinct_sources(rest, id, a, b);
        } else {
            if a == 0 {
                // rem[b] comes from the rest, where s[0] does not occur
                lemma_remove_user_elems(rest, id);
                assert(rem[b] == spec_remove_user(rest, id)[b - 1]);
                let m0 = choose|m: int| 0 <= m < rest.len() && #[trigger] rest[m]
                    == spec_remove_user(rest, id)[b - 1];
                assert(rest[m0] == s[m0 + 1]);
                assert(s[0].id != s[m0 + 1].id);
                assert(s[0].email@ != s[m0 + 1].email@);
            } else {
                lemma_remove_user_distinct_sources(rest, id, a - 1, b - 1);
                assert(rem[a] == spec_remove_user(rest, id)[a - 1]);
                assert(rem[b] == spec_remove_user(rest, id)[b - 1]);
            }
        }
    }
}

} // verus!
