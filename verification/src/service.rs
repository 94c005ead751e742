//! The authentication and user services: login, registration, token
//! refresh, and user record management over the credential store.

use vstd::prelude::*;
use vstd::string::StringExecFns;
use crate::codec::token_chars;
use crate::errors::MyError;
use crate::ident::new_uuid_v4;
use crate::issuer::access_claims;
use crate::issuer::create_access_token;
use crate::issuer::create_refresh_token;
use crate::issuer::refresh_claims;
use crate::issuer::RefreshTokenDTO;
use crate::policy::TokenPolicy;
use crate::pwhash::bcrypt_accepts;
use crate::pwhash::hash_password;
use crate::pwhash::verify_password;
use crate::refresh::refresh_access_token_util;
use crate::refresh::rotate_decision;
use crate::store::spec_remove_user;
use crate::store::spec_remove_user_tokens;
use crate::store::spec_revoke_token;
use crate::store::spec_user_by_email;
use crate::store::spec_user_by_id;
use crate::store::CredentialStore;
use crate::store::RefreshRecord;
use crate::store::UserRecord;

verus! {

/// Registration input.
#[derive(Debug)]
pub struct UserCreateDTO {
    pub username: String,
    pub email: String,
    pub password: String,
}

/// The non-sensitive projection of a user.
#[derive(Debug)]
pub struct ShortUserDTO {
    pub id: u128,
    pub username: String,
    pub email: String,
}

/// Login input.
#[derive(Debug)]
pub struct UserLoginDTO {
    pub email: String,
    pub password: String,
}

/// What a successful login returns: the user projection, an access
/// token, and the refresh-token envelope.
#[derive(Debug)]
pub struct UserLoginServiceDTO {
    pub user: ShortUserDTO,
    pub access_token: String,
    pub refresh_token: RefreshTokenDTO,
}

/// The authentication service: owns the store, the token policy, and
/// the password-hashing cost.
pub struct AuthService {
    pub store: CredentialStore,
    pub policy: TokenPolicy,
    pub hash_cost: u32,
}

impl AuthService {
    /// Assemble the service.
    pub fn new(store: CredentialStore, policy: TokenPolicy, hash_cost: u32) -> (r: Result<
        AuthService,
        MyError,
    >)
        ensures
            r matches Ok(s) && s.store == store && s.policy == policy && s.hash_cost == hash_cost,
    {
        Ok(AuthService { store, policy, hash_cost })
    }

    /// Log a user in: resolve the email, check the password against
    /// the stored digest, mint an access token and a refresh token,
    /// and persist the refresh record.  On failure nothing changes.
    pub fn login(&mut self, user_email: &str, user_password: &str, now: i64) -> (r: Result<
        UserLoginServiceDTO,
        MyError,
    >)
        requires
            old(self).policy.wf(),
            now + old(self).policy.access_lifetime <= 0x7fff_ffff_ffff_ffff,
            now + old(self).policy.refresh_lifetime <= 0x7fff_ffff_ffff_ffff,
        ensures
            final(self).policy == old(self).policy,
            final(self).hash_cost == old(self).hash_cost,
            final(self).store.users == old(self).store.users,
            old(self).store.wf() ==> final(self).store.wf(),
            match r {
                Ok(dto) => ({
                    let found = spec_user_by_email(old(self).store.users@, user_email@);
                    let u = found->Some_0;
                    let p = old(self).policy;
                    &&& found is Some
                    &&& bcrypt_accepts(user_password@, u.password_digest@)
                    &&& dto.user.id == u.id
                    &&& dto.user.username@ == u.username@
                    &&& dto.user.email@ == u.email@
                    &&& dto.access_token@ == token_chars(
                        access_claims(u, p, now as int),
                        p.secret@,
                    )
                    &&& dto.refresh_token.refresh_token@ == token_chars(
                        refresh_claims(u.id, p, now as int),
                        p.secret@,
                    )
                    &&& dto.refresh_token.issued_at == now
                    &&& dto.refresh_token.expires_at == now + p.refresh_lifetime
                    &&& dto.refresh_token.revoked == false
                    &&& final(self).store.refresh_records@.len() == old(
                        self,
                    ).store.refresh_records@.len() + 1
                    &&& final(self).store.refresh_records@.subrange(
                        0,
                        old(self).store.refresh_records@.len() as int,
                    ) == old(self).store.refresh_records@
                    &&& ({
                        let rec = final(self).store.refresh_records@.last();
                        &&& rec.user_id == u.id
                        &&& rec.token@ == dto.refresh_token.refresh_token@
                        &&& rec.issued_at == now
                        &&& rec.expires_at == now + p.refresh_lifetime
                        &&& rec.issuer@ == p.issuer@
                        &&& rec.audience@ == p.audience@
                        &&& rec.revoked == false
                    })
                }),
                Err(e) => {
                    &&& *final(self) == *old(self)
                    &&& (match spec_user_by_email(old(self).store.users@, user_email@) {
                        None => e == MyError::UserNotFound,
                        Some(u) => e == MyError::InvalidCredentials && !bcrypt_accepts(
                            user_password@,
                            u.password_digest@,
                        ),
                    })
                },
            },
    {
        let user = match self.store.find_user_by_email(user_email) {
            Some(u) => u,
            None => {
                return Err(MyError::UserNotFound);
            },
        };
        if !verify_password(user_password, user.password_digest.as_str()) {
            return Err(MyError::InvalidCredentials);
        }
        let access_token = match create_access_token(&user, &self.policy, now) {
            Ok(t) => t,
            Err(e) => {
                return Err(e);
            },
        };
        let refresh_dto = match create_refresh_token(user.id, &self.policy, now) {
            Ok(d) => d,
            Err(e) => {
                return Err(e);
            },
        };
        let rid = new_uuid_v4();
        let rec = RefreshRecord {
            id: rid,
            user_id: user.id,
            token: refresh_dto.refresh_token.clone(),
            issued_at: refresh_dto.issued_at,
            expires_at: refresh_dto.expires_at,
            issuer: self.policy.issuer.clone(),
            audience: self.policy.audience.clone(),
            revoked: false,
        };
        self.store.insert_refresh_record(rec);
        let short = ShortUserDTO {
            id: user.id,
            username: user.username.clone(),
            email: user.email.clone(),
        };
        Ok(UserLoginServiceDTO { user: short, access_token, refresh_token: refresh_dto })
    }

    /// Register a user: hash the password and insert the record under
    /// a fresh identifier.  A taken email is refused.
    pub fn register(&mut self, user_name: &str, user_email: &str, user_pass: &str) -> (r: Result<
        u128,
        MyError,
    >)
        requires
            old(self).store.wf(),
            4 <= old(self).hash_cost <= 31,
        ensures
            final(self).policy == old(self).policy,
            final(self).hash_cost == old(self).hash_cost,
            final(self).store.wf(),
            final(self).store.refresh_records == old(self).store.refresh_records,
            spec_user_by_email(old(self).store.users@, user_email@) is Some ==> r is Err,
            match r {
                Ok(uid) => ({
                    &&& spec_user_by_email(old(self).store.users@, user_email@) is None
                    &&& spec_user_by_id(old(self).store.users@, uid) is None
                    &&& final(self).store.users@.len() == old(self).store.users@.len() + 1
                    &&& final(self).store.users@.subrange(
                        0,
                        old(self).store.users@.len() as int,
                    ) == old(self).store.users@
                    &&& ({
                        let u = final(self).store.users@.last();
                        &&& u.id == uid
                        &&& u.username@ == user_name@
                        &&& u.email@ == user_email@
                        &&& bcrypt_accepts(user_pass@, u.password_digest@)
                    })
                }),
                Err(e) => e == MyError::StoreFailure && *final(self) == *old(self),
            },
    {
        let hashed = match hash_password(user_pass, self.hash_cost) {
            Some(h) => h,
            None => {
                return Err(MyError::StoreFailure);
            },
        };
        let uid = new_uuid_v4();
        let u = UserRecord {
            id: uid,
            username: String::from_str(user_name),
            email: String::from_str(user_email),
            password_digest: hashed,
        };
        match self.store.insert_user(u) {
            Ok(_) => Ok(uid),
            Err(e) => Err(e),
        }
    }

    /// Exchange a presented refresh token for a new access token,
    /// revoking the consumed token.
    pub fn refresh_access_token(&mut self, refresh_token: &str, now: i64) -> (r: Result<
        String,
        MyError,
    >)
        requires
            old(self).policy.wf(),
            now + old(self).policy.access_lifetime <= 0x7fff_ffff_ffff_ffff,
        ensures
            final(self).policy == old(self).policy,
            final(self).hash_cost == old(self).hash_cost,
            final(self).store.users == old(self).store.users,
            old(self).store.wf() ==> final(self).store.wf(),
            match r {
                Ok(t) => {
                    &&& rotate_decision(
                        old(self).store.users@,
                        old(self).store.refresh_records@,
                        refresh_token@,
                        old(self).policy.secret@,
                        old(self).policy.issuer@,
                        old(self).policy.audience@,
                        old(self).policy.leeway as int,
                        now as int,
                    ) matches Ok(u) && t@ == token_chars(
                        access_claims(u, old(self).policy, now as int),
                        old(self).policy.secret@,
                    )
                    &&& final(self).store.refresh_records@ == spec_revoke_token(
                        old(self).store.refresh_records@,
                        refresh_token@,
                    )
                },
                Err(e) => rotate_decision(
                    old(self).store.users@,
                    old(self).store.refresh_records@,
                    refresh_token@,
                    old(self).policy.secret@,
                    old(self).policy.issuer@,
                    old(self).policy.audience@,
                    old(self).policy.leeway as int,
                    now as int,
                ) == Err::<UserRecord, MyError>(e) && *final(self) == *old(self),
            },
    {
        refresh_access_token_util(refresh_token, &mut self.store, &self.policy, now)
    }
}

/// The user service: reads and deletes user records.
pub struct UserService {
    pub store: CredentialStore,
}

impl UserService {
    /// Assemble the service.
    pub fn new(store: CredentialStore) -> (r: UserService)
        ensures
            r.store == store,
    {
        UserService { store }
    }

    /// Look a user up by id.
    pub fn get_user(&self, uid: u128) -> (r: Option<UserRecord>)
        ensures
            r == spec_user_by_id(self.store.users@, uid),
    {
        self.store.find_user_by_id(uid)
    }

    /// Delete a user and that user's refresh records.
    pub fn delete_user(&mut self, uid: u128) -> (r: Result<(), MyError>)
        requires
            old(self).store.wf(),
        ensures
            r is Ok,
            final(self).store.wf(),
            final(self).store.users@ == spec_remove_user(old(self).store.users@, uid),
            final(self).store.refresh_records@ == spec_remove_user_tokens(
                old(self).store.refresh_records@,
                uid,
            ),
    {
        self.store.delete_user(uid)
    }
}

} // verus!
